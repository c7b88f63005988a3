//! Bytes as numbers, as hexadecimal and as base32 text.

use crate::text::chars_of;
use vstd::prelude::*;

verus! {

// ---------------------------------------------------------------------------
// Bytes as numbers.
// ---------------------------------------------------------------------------

/// The number that bytes stand for, the most significant first.
pub open spec fn be_value(s: Seq<u8>) -> nat
    decreases s.len(),
{
    if s.len() == 0 {
        0
    } else {
        be_value(s.drop_last()) * 256 + s.last() as nat
    }
}

/// A number as `n` bytes, the most significant first.
pub open spec fn be_bytes(value: nat, n: nat) -> Seq<u8>
    decreases n,
{
    if n == 0 {
        seq![]
    } else {
        be_bytes(value / 256, (n - 1) as nat).push((value % 256) as u8)
    }
}

/// How many numbers `n` bytes can stand for.
pub open spec fn be_bound(n: nat) -> nat
    decreases n,
{
    if n == 0 {
        1
    } else {
        256 * be_bound((n - 1) as nat)
    }
}

/// Numbers and their bytes determine each other.
pub proof fn be_value_of_bytes(value: nat, n: nat)
    requires
        value < be_bound(n),
    ensures
        be_bytes(value, n).len() == n,
        be_value(be_bytes(value, n)) == value,
    decreases n,
{
    if n > 0 {
        be_value_of_bytes(value / 256, (n - 1) as nat);
        assert(be_bytes(value, n).drop_last() =~= be_bytes(value / 256, (n - 1) as nat));
    }
}

/// Bytes and their number determine each other.
pub proof fn be_bytes_of_value(s: Seq<u8>)
    ensures
        be_value(s) < be_bound(s.len()),
        be_bytes(be_value(s), s.len()) == s,
    decreases s.len(),
{
    if s.len() > 0 {
        be_bytes_of_value(s.drop_last());
        assert(be_value(s) / 256 == be_value(s.drop_last()));
        assert(be_value(s) % 256 == s.last() as nat);
        assert(s =~= s.drop_last().push(s.last()));
    } else {
        assert(s =~= seq![]);
    }
}

/// Sixteen bytes hold exactly the numbers of a `u128`.
pub proof fn be_bound_of_sixteen()
    ensures
        be_bound(16) == u128::MAX + 1,
{
    reveal_with_fuel(be_bound, 17);
}

/// How many bytes a number is written in does not depend on the number.
pub proof fn be_bytes_len(value: nat, n: nat)
    ensures
        be_bytes(value, n).len() == n,
    decreases n,
{
    if n > 0 {
        be_bytes_len(value / 256, (n - 1) as nat);
    }
}

/// The last `n` bytes of a number.
pub fn bytes_of(value: u128, n: usize) -> (out: Vec<u8>)
    ensures
        out@ == be_bytes(value as nat, n as nat),
    decreases n,
{
    if n == 0 {
        let out: Vec<u8> = Vec::new();
        assert(out@ =~= be_bytes(value as nat, 0));
        out
    } else {
        let mut out = bytes_of(value / 256, n - 1);
        out.push((value % 256) as u8);
        out
    }
}

/// The number that sixteen bytes from `from` on stand for.
pub fn value_of(bytes: &Vec<u8>, from: usize) -> (value: u128)
    requires
        from + 16 <= bytes.len(),
    ensures
        value == be_value(bytes@.subrange(from as int, from + 16)),
{
    let mut value: u128 = 0;
    let mut i: usize = 0;
    while i < 16
        invariant
            from + 16 <= bytes.len(),
            i <= 16,
            value == be_value(bytes@.subrange(from as int, from + i)),
        decreases 16 - i,
    {
        let ghost next = bytes@.subrange(from as int, from + i + 1);
        proof {
            be_bytes_of_value(next);
            lemma_bound_grows((i + 1) as nat, 16);
            be_bound_of_sixteen();
            assert(next.drop_last() =~= bytes@.subrange(from as int, from + i));
        }
        assert(be_value(next) == value * 256 + bytes@[from + i]);
        value = value * 256 + (bytes[from + i] as u128);
        i += 1;
    }
    value
}

proof fn lemma_bound_grows(n: nat, m: nat)
    requires
        n <= m,
    ensures
        0 < be_bound(n) <= be_bound(m),
    decreases m,
{
    if n < m {
        lemma_bound_grows(n, (m - 1) as nat);
    } else if m > 0 {
        lemma_bound_grows((n - 1) as nat, (m - 1) as nat);
    }
}

// ---------------------------------------------------------------------------
// Hexadecimal.
// ---------------------------------------------------------------------------

/// The lower-case hexadecimal digit for a number below sixteen.
pub open spec fn hex_digit(d: nat) -> char {
    if d < 10 {
        (d + 48) as u8 as char
    } else {
        (d + 87) as u8 as char
    }
}

/// Bytes in lower-case hexadecimal: two digits each, the high one first.
pub open spec fn hex_text(bytes: Seq<u8>) -> Seq<char> {
    Seq::new(
        2 * bytes.len(),
        |i: int|
            if i % 2 == 0 {
                hex_digit((bytes[i / 2] / 16) as nat)
            } else {
                hex_digit((bytes[i / 2] % 16) as nat)
            },
    )
}

/// `data_encoding::HEXLOWER.encode`: two lower-case digits for each byte.
#[verifier::external_body]
pub(crate) fn hex_encode(bytes: &Vec<u8>) -> (out: String)
    requires
        bytes@.len() <= 1024,
    ensures
        out@ == hex_text(bytes@),
{
    data_encoding::HEXLOWER.encode(bytes)
}

/// `data_encoding::HEXLOWER.decode`: the bytes that the text is the lower-case
/// hexadecimal of, which is one sequence of bytes at most; nothing where the
/// text is the hexadecimal of none.
#[verifier::external_body]
pub(crate) fn hex_decode(text: &str) -> (out: Option<Vec<u8>>)
    ensures
        match out {
            Some(bytes) => hex_text(bytes@) == text@ && forall|b: Seq<u8>|
                #[trigger] hex_text(b) == text@ ==> b == bytes@,
            None => forall|b: Seq<u8>| #[trigger] hex_text(b) != text@,
        },
{
    data_encoding::HEXLOWER.decode(text.as_bytes()).ok()
}

// ---------------------------------------------------------------------------
// Base32.
// ---------------------------------------------------------------------------

/// A power of two below 256, as the weight of a bit in its byte.
pub open spec fn bit_weight(k: int) -> nat {
    if k == 0 {
        128
    } else if k == 1 {
        64
    } else if k == 2 {
        32
    } else if k == 3 {
        16
    } else if k == 4 {
        8
    } else if k == 5 {
        4
    } else if k == 6 {
        2
    } else {
        1
    }
}

/// The `k`th bit of a run of bytes, the most significant first, and zero past
/// the end.
pub open spec fn bit_at(bytes: Seq<u8>, k: int) -> nat {
    if k / 8 < bytes.len() {
        (bytes[k / 8] as nat / bit_weight(k % 8)) % 2
    } else {
        0
    }
}

/// The `i`th group of five bits.
pub open spec fn quintet(bytes: Seq<u8>, i: int) -> nat {
    16 * bit_at(bytes, 5 * i) + 8 * bit_at(bytes, 5 * i + 1) + 4 * bit_at(bytes, 5 * i + 2) + 2
        * bit_at(bytes, 5 * i + 3) + bit_at(bytes, 5 * i + 4)
}

/// The base32 character for a number below 32: `A` to `Z`, then `2` to `7`.
pub open spec fn base32_char(d: nat) -> char {
    if d < 26 {
        (d + 65) as u8 as char
    } else {
        (d + 24) as u8 as char
    }
}

/// Bytes in base32 without padding.
pub open spec fn base32_text(bytes: Seq<u8>) -> Seq<char> {
    Seq::new((8 * bytes.len() + 4) / 5, |i: int| base32_char(quintet(bytes, i)))
}

/// `data_encoding::BASE32_NOPAD.encode`: a character for every five bits, the
/// last group filled up with zero bits.
#[verifier::external_body]
pub(crate) fn base32_encode(bytes: &Vec<u8>) -> (out: String)
    requires
        bytes@.len() <= 1024,
    ensures
        out@ == base32_text(bytes@),
{
    data_encoding::BASE32_NOPAD.encode(bytes)
}

/// `data_encoding::BASE32_NOPAD.decode`: the bytes that the text is the base32
/// of, which is one sequence of bytes at most, since bits left over must be
/// zero; nothing where the text is the base32 of none.
#[verifier::external_body]
pub(crate) fn base32_decode(text: &str) -> (out: Option<Vec<u8>>)
    ensures
        match out {
            Some(bytes) => base32_text(bytes@) == text@ && forall|b: Seq<u8>|
                #[trigger] base32_text(b) == text@ ==> b == bytes@,
            None => forall|b: Seq<u8>| #[trigger] base32_text(b) != text@,
        },
{
    data_encoding::BASE32_NOPAD.decode(text.as_bytes()).ok()
}

/// A character of the base32 alphabet.
pub open spec fn is_base32(c: char) -> bool {
    ('A' <= c && c <= 'Z') || ('2' <= c && c <= '7')
}

/// Base32 text is made of the base32 alphabet.
pub proof fn base32_alphabet(bytes: Seq<u8>)
    ensures
        forall|i: int| 0 <= i < base32_text(bytes).len() ==> is_base32(#[trigger] base32_text(bytes)[i]),
{
    assert forall|i: int| 0 <= i < base32_text(bytes).len() implies is_base32(
        #[trigger] base32_text(bytes)[i],
    ) by {
        assert forall|k: int| #[trigger] bit_at(bytes, k) < 2 by {}
        assert(bit_at(bytes, 5 * i) < 2);
        assert(bit_at(bytes, 5 * i + 1) < 2);
        assert(bit_at(bytes, 5 * i + 2) < 2);
        assert(bit_at(bytes, 5 * i + 3) < 2);
        assert(bit_at(bytes, 5 * i + 4) < 2);
        assert(quintet(bytes, i) < 32);
    }
}

/// The value of a base32 character.
pub open spec fn base32_value(c: char) -> nat {
    if 'A' <= c && c <= 'Z' {
        (c as int - 65) as nat
    } else {
        (c as int - 24) as nat
    }
}

/// No two runs of bytes of one length have the same base32.
pub proof fn base32_is_injective(a: Seq<u8>, b: Seq<u8>)
    requires
        a.len() == b.len(),
        base32_text(a) == base32_text(b),
    ensures
        a == b,
{
    assert forall|k: int| 0 <= k < 8 * a.len() implies #[trigger] bit_at(a, k) == bit_at(b, k) by {
        let i = k / 5;
        assert(0 <= i < base32_text(a).len());
        assert(base32_text(a)[i] == base32_char(quintet(a, i)));
        assert(base32_text(b)[i] == base32_char(quintet(b, i)));
        lemma_quintet_bound(a, i);
        lemma_quintet_bound(b, i);
        assert(base32_value(base32_char(quintet(a, i))) == quintet(a, i));
        assert(base32_value(base32_char(quintet(b, i))) == quintet(b, i));
        lemma_quintet_bits(a, b, i);
        assert(k == 5 * i || k == 5 * i + 1 || k == 5 * i + 2 || k == 5 * i + 3 || k == 5 * i + 4);
    }
    assert forall|n: int| 0 <= n < a.len() implies a[n] == b[n] by {
        lemma_byte_from_bits(a, n);
        lemma_byte_from_bits(b, n);
        assert(bit_at(a, 8 * n) == bit_at(b, 8 * n));
        assert(bit_at(a, 8 * n + 1) == bit_at(b, 8 * n + 1));
        assert(bit_at(a, 8 * n + 2) == bit_at(b, 8 * n + 2));
        assert(bit_at(a, 8 * n + 3) == bit_at(b, 8 * n + 3));
        assert(bit_at(a, 8 * n + 4) == bit_at(b, 8 * n + 4));
        assert(bit_at(a, 8 * n + 5) == bit_at(b, 8 * n + 5));
        assert(bit_at(a, 8 * n + 6) == bit_at(b, 8 * n + 6));
        assert(bit_at(a, 8 * n + 7) == bit_at(b, 8 * n + 7));
    }
    assert(a =~= b);
}

proof fn lemma_bits_bound(a: Seq<u8>, k: int)
    ensures
        bit_at(a, k) < 2,
        bit_at(a, k + 1) < 2,
        bit_at(a, k + 2) < 2,
        bit_at(a, k + 3) < 2,
        bit_at(a, k + 4) < 2,
{
}

proof fn lemma_quintet_bits(a: Seq<u8>, b: Seq<u8>, i: int)
    requires
        quintet(a, i) == quintet(b, i),
    ensures
        bit_at(a, 5 * i) == bit_at(b, 5 * i),
        bit_at(a, 5 * i + 1) == bit_at(b, 5 * i + 1),
        bit_at(a, 5 * i + 2) == bit_at(b, 5 * i + 2),
        bit_at(a, 5 * i + 3) == bit_at(b, 5 * i + 3),
        bit_at(a, 5 * i + 4) == bit_at(b, 5 * i + 4),
{
    lemma_bits_bound(a, 5 * i);
    lemma_bits_bound(b, 5 * i);
    lemma_five_bits(
        bit_at(a, 5 * i),
        bit_at(a, 5 * i + 1),
        bit_at(a, 5 * i + 2),
        bit_at(a, 5 * i + 3),
        bit_at(a, 5 * i + 4),
        bit_at(b, 5 * i),
        bit_at(b, 5 * i + 1),
        bit_at(b, 5 * i + 2),
        bit_at(b, 5 * i + 3),
        bit_at(b, 5 * i + 4),
    );
}

proof fn lemma_five_bits(
    a: nat,
    b: nat,
    c: nat,
    d: nat,
    e: nat,
    p: nat,
    q: nat,
    r: nat,
    s: nat,
    t: nat,
)
    requires
        a < 2 && b < 2 && c < 2 && d < 2 && e < 2,
        p < 2 && q < 2 && r < 2 && s < 2 && t < 2,
        16 * a + 8 * b + 4 * c + 2 * d + e == 16 * p + 8 * q + 4 * r + 2 * s + t,
    ensures
        a == p && b == q && c == r && d == s && e == t,
{
}

proof fn lemma_quintet_bound(a: Seq<u8>, i: int)
    ensures
        quintet(a, i) < 32,
{
    lemma_bits_bound(a, 5 * i);
}

proof fn lemma_byte_from_bits(a: Seq<u8>, n: int)
    requires
        0 <= n < a.len(),
    ensures
        a[n] as nat == 128 * bit_at(a, 8 * n) + 64 * bit_at(a, 8 * n + 1) + 32 * bit_at(
            a,
            8 * n + 2,
        ) + 16 * bit_at(a, 8 * n + 3) + 8 * bit_at(a, 8 * n + 4) + 4 * bit_at(a, 8 * n + 5) + 2
            * bit_at(a, 8 * n + 6) + bit_at(a, 8 * n + 7),
{
    let x: u8 = a[n];
    assert(x == 128 * ((x / 128) % 2) + 64 * ((x / 64) % 2) + 32 * ((x / 32) % 2) + 16 * ((x / 16)
        % 2) + 8 * ((x / 8) % 2) + 4 * ((x / 4) % 2) + 2 * ((x / 2) % 2) + (x / 1) % 2)
        by (bit_vector);
    assert(bit_at(a, 8 * n) == (x / 128) % 2);
    assert(bit_at(a, 8 * n + 1) == (x / 64) % 2);
    assert(bit_at(a, 8 * n + 2) == (x / 32) % 2);
    assert(bit_at(a, 8 * n + 3) == (x / 16) % 2);
    assert(bit_at(a, 8 * n + 4) == (x / 8) % 2);
    assert(bit_at(a, 8 * n + 5) == (x / 4) % 2);
    assert(bit_at(a, 8 * n + 6) == (x / 2) % 2);
    assert(bit_at(a, 8 * n + 7) == (x / 1) % 2);
}

/// No two runs of bytes have the same hexadecimal.
pub proof fn hex_is_injective(a: Seq<u8>, b: Seq<u8>)
    requires
        hex_text(a) == hex_text(b),
    ensures
        a == b,
{
    assert(2 * a.len() == hex_text(a).len());
    assert(2 * b.len() == hex_text(b).len());
    assert forall|n: int| 0 <= n < a.len() implies a[n] == b[n] by {
        assert((2 * n) / 2 == n && (2 * n + 1) / 2 == n);
        assert((2 * n) % 2 == 0 && (2 * n + 1) % 2 == 1);
        assert(hex_text(a)[2 * n] == hex_digit((a[n] / 16) as nat));
        assert(hex_text(b)[2 * n] == hex_digit((b[n] / 16) as nat));
        assert(hex_text(a)[2 * n + 1] == hex_digit((a[n] % 16) as nat));
        assert(hex_text(b)[2 * n + 1] == hex_digit((b[n] % 16) as nat));
        assert(a[n] / 16 == b[n] / 16);
        assert(a[n] % 16 == b[n] % 16);
    }
    assert(a =~= b);
}

// ---------------------------------------------------------------------------
// Groups of four.
// ---------------------------------------------------------------------------

/// Text in groups of four characters with a hyphen between the groups.
pub open spec fn grouped(t: Seq<char>) -> Seq<char> {
    Seq::new(
        if t.len() == 0 {
            0
        } else {
            (t.len() + (t.len() - 1) / 4) as nat
        },
        |p: int|
            if p % 5 == 4 {
                '-'
            } else {
                t[p - p / 5]
            },
    )
}

/// Text without its hyphens.
pub open spec fn ungrouped(s: Seq<char>) -> Seq<char>
    decreases s.len(),
{
    if s.len() == 0 {
        s
    } else if s.last() == '-' {
        ungrouped(s.drop_last())
    } else {
        ungrouped(s.drop_last()).push(s.last())
    }
}

/// Taking the hyphens out again gives the text, if it had none of its own.
pub proof fn ungrouping_undoes_grouping(t: Seq<char>)
    requires
        forall|i: int| 0 <= i < t.len() ==> #[trigger] t[i] != '-',
    ensures
        ungrouped(grouped(t)) == t,
{
    let g = grouped(t);
    lemma_ungrouped_prefix(t, g.len() as int);
    assert(g.take(g.len() as int) =~= g);
    if t.len() > 0 {
        let n = g.len() as int;
        assert(n - n / 5 == t.len());
    }
    assert(t.take(t.len() as int) =~= t);
}

proof fn lemma_ungrouped_prefix(t: Seq<char>, n: int)
    requires
        forall|i: int| 0 <= i < t.len() ==> #[trigger] t[i] != '-',
        0 <= n <= grouped(t).len(),
    ensures
        0 <= n - n / 5 <= t.len(),
        ungrouped(grouped(t).take(n)) == t.take(n - n / 5),
    decreases n,
{
    let g = grouped(t);
    if n > 0 {
        lemma_ungrouped_prefix(t, n - 1);
        let s = g.take(n);
        assert(s.drop_last() =~= g.take(n - 1));
        assert(s.last() == g[n - 1]);
        if (n - 1) % 5 == 4 {
            assert(s.last() == '-');
            assert(n - n / 5 == (n - 1) - (n - 1) / 5);
        } else {
            let at = (n - 1) - (n - 1) / 5;
            assert(n - n / 5 == at + 1);
            assert(at < t.len());
            assert(s.last() == t[at]);
            assert(t.take(at).push(t[at]) =~= t.take(at + 1));
        }
    } else {
        assert(g.take(0) =~= seq![]);
        assert(t.take(0) =~= seq![]);
    }
}

/// Put text into groups of four.
pub fn group(t: &str) -> (out: String)
    ensures
        out@ == grouped(t@),
{
    let chars = chars_of(t);
    let mut out = String::new();
    let mut i: usize = 0;
    assert(grouped(t@).take(0) =~= seq![]);
    while i < chars.len()
        invariant
            chars@ == t@,
            i <= chars.len(),
            out@ == grouped(t@).take(
                if i == 0 {
                    0
                } else {
                    i + (i - 1) / 4
                },
            ),
        decreases chars.len() - i,
    {
        let ghost all = grouped(t@);
        let ghost p = i + i / 4;
        if i > 0 && i % 4 == 0 {
            assert(all[p - 1] == '-');
            assert(all.take(p) =~= all.take(p - 1).push('-'));
            out.push('-');
        }
        assert(out@ == all.take(p));
        assert(all[p] == t@[i as int]);
        assert(all.take(p + 1) =~= all.take(p).push(t@[i as int]));
        out.push(chars[i]);
        i += 1;
    }
    assert(out@ =~= grouped(t@));
    out
}

/// Take the hyphens out of text.
pub fn ungroup(s: &str) -> (out: String)
    ensures
        out@ == ungrouped(s@),
{
    let chars = chars_of(s);
    let mut out = String::new();
    let mut i: usize = 0;
    assert(s@.take(0) =~= seq![]);
    while i < chars.len()
        invariant
            chars@ == s@,
            i <= chars.len(),
            out@ == ungrouped(s@.take(i as int)),
        decreases chars.len() - i,
    {
        assert(s@.take(i + 1).drop_last() =~= s@.take(i as int));
        if chars[i] != '-' {
            out.push(chars[i]);
        }
        i += 1;
    }
    assert(s@.take(i as int) =~= s@);
    out
}

// ---------------------------------------------------------------------------
// Case.
// ---------------------------------------------------------------------------

/// The upper-case form of an ASCII letter; every other character is itself.
pub open spec fn upper_char(c: char) -> char {
    if 'a' <= c && c <= 'z' {
        ((c as u8) - 32) as u8 as char
    } else {
        c
    }
}

/// Text with its ASCII letters in upper case.
pub open spec fn upper(s: Seq<char>) -> Seq<char> {
    s.map_values(|c: char| upper_char(c))
}

/// Put the ASCII letters of text in upper case.
pub fn to_upper(s: &str) -> (out: String)
    ensures
        out@ == upper(s@),
{
    let mut out = String::new();
    for c in it: s.chars()
        invariant
            it.seq() == s@,
            out@ == upper(s@.take(it.index() as int)),
    {
        proof {
            let i = it.index() as int;
            assert(upper(s@.take(i + 1)) =~= upper(s@.take(i)).push(upper_char(s@[i])));
        }
        if 'a' <= c && c <= 'z' {
            out.push(((c as u8) - 32) as char);
        } else {
            out.push(c);
        }
    }
    assert(s@.take(s@.len() as int) =~= s@);
    out
}

/// Put the ASCII letters of text in lower case.
pub fn to_lower_text(s: &str) -> (out: String)
    ensures
        out@ == crate::text::lower(s@),
{
    let mut out = String::new();
    for c in it: s.chars()
        invariant
            it.seq() == s@,
            out@ == crate::text::lower(s@.take(it.index() as int)),
    {
        proof {
            let i = it.index() as int;
            assert(crate::text::lower(s@.take(i + 1)) =~= crate::text::lower(s@.take(i)).push(
                crate::text::lower_char(s@[i]),
            ));
        }
        out.push(crate::text::to_lower(c));
    }
    assert(s@.take(s@.len() as int) =~= s@);
    out
}

/// Base32 text survives being put in lower case and back.
pub proof fn base32_case_round_trip(bytes: Seq<u8>)
    ensures
        upper(crate::text::lower(base32_text(bytes))) == base32_text(bytes),
        forall|i: int|
            0 <= i < base32_text(bytes).len() ==> #[trigger] crate::text::lower(
                base32_text(bytes),
            )[i] != '-',
{
    base32_alphabet(bytes);
    let t = base32_text(bytes);
    assert forall|i: int| 0 <= i < t.len() implies upper(crate::text::lower(t))[i] == #[trigger] t[i] by {
        assert(is_base32(t[i]));
    }
    assert(upper(crate::text::lower(t)) =~= t);
    assert forall|i: int| 0 <= i < t.len() implies #[trigger] crate::text::lower(t)[i] != '-' by {
        assert(is_base32(t[i]));
    }
}

} // verus!
