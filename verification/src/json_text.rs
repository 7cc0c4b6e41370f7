//! The shape of the JSON texts the encoder writes, and how deep they nest:
//! strings never change the nesting depth, and a session's text (an object
//! of strings with arrays of numbers) nests two deep at most.
use vstd::prelude::*;
use vstd::utf8::encode_utf8;
use crate::json::{scan, scan_step, json_depth, json_string, escaped, escape_char};

verus! {

/// A scan state: nesting depth, deepest so far, inside a string, escaping.
pub type ScanState = (nat, nat, bool, bool);

/// The scan of the bytes `b` from the state `st`.
pub open spec fn scan_from(st: ScanState, b: Seq<u8>) -> ScanState
    decreases b.len(),
{
    if b.len() == 0 {
        st
    } else {
        scan_step(scan_from(st, b.drop_last()), b.last())
    }
}

/// The scan from the start is the scan from the empty state.
pub proof fn lemma_scan_is_scan_from(b: Seq<u8>)
    ensures
        scan(b) == scan_from((0nat, 0nat, false, false), b),
    decreases b.len(),
{
    if b.len() > 0 {
        lemma_scan_is_scan_from(b.drop_last());
    }
}

/// Scanning two texts one after the other is scanning their concatenation.
pub proof fn lemma_scan_from_append(st: ScanState, a: Seq<u8>, b: Seq<u8>)
    ensures
        scan_from(st, a + b) == scan_from(scan_from(st, a), b),
    decreases b.len(),
{
    if b.len() == 0 {
        assert(a + b =~= a);
    } else {
        assert((a + b).drop_last() =~= a + b.drop_last());
        assert((a + b).last() == b.last());
        lemma_scan_from_append(st, a, b.drop_last());
    }
}

/// The UTF-8 encoding of a concatenation is the concatenation of encodings.
pub proof fn lemma_encode_utf8_append(a: Seq<char>, b: Seq<char>)
    ensures
        encode_utf8(a + b) == encode_utf8(a) + encode_utf8(b),
    decreases a.len(),
{
    if a.len() == 0 {
        assert(a + b =~= b);
        assert(encode_utf8(a) =~= Seq::<u8>::empty());
        assert(encode_utf8(a) + encode_utf8(b) =~= encode_utf8(b));
    } else {
        assert((a + b)[0] == a[0]);
        assert((a + b).drop_first() =~= a.drop_first() + b);
        lemma_encode_utf8_append(a.drop_first(), b);
        assert(encode_utf8(a + b) =~= encode_utf8(a) + encode_utf8(b));
    }
}

/// An ASCII character is encoded as the one byte of its code.
pub proof fn lemma_encode_ascii(c: char)
    requires
        (c as u32) < 128,
    ensures
        encode_utf8(seq![c]) == seq![(c as u32) as u8],
{
    let u = c as u32;
    assert(seq![c].drop_first() =~= Seq::<char>::empty());
    assert(seq![c][0] == c);
    assert(encode_utf8(Seq::<char>::empty()) =~= Seq::<u8>::empty());
    assert(((u & 0x7F) as u8) == (u as u8)) by (bit_vector)
        requires
            u < 128,
    ;
    assert(encode_utf8(seq![c]) =~= seq![(c as u32) as u8]);
}

/// A character outside ASCII is encoded as bytes from 0x80 up.
pub proof fn lemma_encode_non_ascii(c: char)
    requires
        (c as u32) >= 128,
    ensures
        forall|i: int| 0 <= i < encode_utf8(seq![c]).len() ==> #[trigger] encode_utf8(seq![c])[i] >= 128,
{
    let u = c as u32;
    assert(seq![c].drop_first() =~= Seq::<char>::empty());
    assert(seq![c][0] == c);
    assert(encode_utf8(Seq::<char>::empty()) =~= Seq::<u8>::empty());
    assert(encode_utf8(seq![c]) =~= vstd::utf8::encode_scalar(u));
    assert(0x80u8 <= (0xC0u8 | ((u >> 6) & 0x1F) as u8)) by (bit_vector);
    assert(0x80u8 <= (0xE0u8 | ((u >> 12) & 0x0F) as u8)) by (bit_vector);
    assert(0x80u8 <= (0xF0u8 | ((u >> 18) & 0x7) as u8)) by (bit_vector);
    assert(0x80u8 <= (0x80u8 | (u & 0x3F) as u8)) by (bit_vector);
    assert(0x80u8 <= (0x80u8 | ((u >> 6) & 0x3F) as u8)) by (bit_vector);
    assert(0x80u8 <= (0x80u8 | ((u >> 12) & 0x3F) as u8)) by (bit_vector);
}

/// A sequence of ASCII characters is encoded as their codes, one byte each.
pub proof fn lemma_encode_ascii_seq(s: Seq<char>)
    requires
        forall|i: int| 0 <= i < s.len() ==> (#[trigger] s[i] as u32) < 128,
    ensures
        encode_utf8(s) == Seq::new(s.len(), |i: int| (s[i] as u32) as u8),
    decreases s.len(),
{
    if s.len() == 0 {
        assert(encode_utf8(s) =~= Seq::<u8>::empty());
        assert(Seq::new(s.len(), |i: int| (s[i] as u32) as u8) =~= Seq::<u8>::empty());
    } else {
        let rest = s.drop_first();
        assert forall|i: int| 0 <= i < rest.len() implies (#[trigger] rest[i] as u32) < 128 by {
            assert(rest[i] == s[i + 1]);
        }
        lemma_encode_ascii_seq(rest);
        assert(s =~= seq![s[0]] + rest);
        lemma_encode_utf8_append(seq![s[0]], rest);
        lemma_encode_ascii(s[0]);
        assert(encode_utf8(s) =~= Seq::new(s.len(), |i: int| (s[i] as u32) as u8));
    }
}

/// Bytes other than a quote and a backslash, read inside a string, leave the
/// scan where it was: inside the string, at the same depth.
pub proof fn lemma_scan_string_content(d: nat, m: nat, b: Seq<u8>)
    requires
        forall|i: int| 0 <= i < b.len() ==> #[trigger] b[i] != 34u8 && b[i] != 92u8,
    ensures
        scan_from((d, m, true, false), b) == (d, m, true, false),
    decreases b.len(),
{
    if b.len() > 0 {
        let rest = b.drop_last();
        assert forall|i: int| 0 <= i < rest.len() implies #[trigger] rest[i] != 34u8 && rest[i] != 92u8 by {
            assert(rest[i] == b[i]);
        }
        lemma_scan_string_content(d, m, rest);
        assert(b.last() == b[b.len() - 1]);
    }
}

/// Bytes other than quotes and brackets, read outside strings, leave the scan
/// where it was.
pub proof fn lemma_scan_plain_outside(d: nat, m: nat, b: Seq<u8>)
    requires
        forall|i: int|
            0 <= i < b.len() ==> #[trigger] b[i] != 34u8 && b[i] != 91u8 && b[i] != 93u8 && b[i]
                != 123u8 && b[i] != 125u8,
    ensures
        scan_from((d, m, false, false), b) == (d, m, false, false),
    decreases b.len(),
{
    if b.len() > 0 {
        let rest = b.drop_last();
        assert forall|i: int| 0 <= i < rest.len() implies #[trigger] rest[i] != 34u8 && rest[i]
            != 91u8 && rest[i] != 93u8 && rest[i] != 123u8 && rest[i] != 125u8 by {
            assert(rest[i] == b[i]);
        }
        lemma_scan_plain_outside(d, m, rest);
        assert(b.last() == b[b.len() - 1]);
    }
}

/// The scan of a backslash, one more byte, and then bytes other than quotes
/// and backslashes, inside a string: back inside the string, at the same depth.
proof fn lemma_scan_escape_bytes(d: nat, m: nat, b: Seq<u8>)
    requires
        b.len() >= 2,
        b[0] == 92u8,
        forall|i: int| 2 <= i < b.len() ==> #[trigger] b[i] != 34u8 && b[i] != 92u8,
    ensures
        scan_from((d, m, true, false), b) == (d, m, true, false),
{
    let st = (d, m, true, false);
    let head = b.take(2);
    let tail = b.skip(2);
    assert(b =~= head + tail);
    lemma_scan_from_append(st, head, tail);
    let h1 = head.drop_last();
    assert(h1.len() == 1 && h1.last() == 92u8);
    assert(h1.drop_last() =~= Seq::<u8>::empty());
    assert(scan_from(st, h1.drop_last()) == st);
    assert(scan_from(st, h1) == (d, m, true, true));
    assert(scan_from(st, head) == st);
    assert forall|i: int| 0 <= i < tail.len() implies #[trigger] tail[i] != 34u8 && tail[i] != 92u8 by {
        assert(tail[i] == b[i + 2]);
    }
    lemma_scan_string_content(d, m, tail);
}

/// Reading one character as the encoder escapes it, inside a string, leaves
/// the scan where it was: inside the string, at the same depth.
pub proof fn lemma_scan_escape_char(d: nat, m: nat, c: char)
    ensures
        scan_from((d, m, true, false), encode_utf8(escape_char(c))) == (d, m, true, false),
{
    let e = escape_char(c);
    let u = c as u32;
    if c == '"' || c == '\\' || c == '\x08' || c == '\t' || c == '\n' || c == '\x0c' || c == '\r' {
        assert(e.len() == 2);
        assert forall|i: int| 0 <= i < e.len() implies (#[trigger] e[i] as u32) < 128 by {}
        lemma_encode_ascii_seq(e);
        lemma_scan_escape_bytes(d, m, encode_utf8(e));
    } else if u < 32 || u == 127 {
        assert(u / 16 < 16 && u % 16 < 16);
        assert(e.len() == 6);
        assert forall|i: int| 0 <= i < e.len() implies (#[trigger] e[i] as u32) < 128 by {}
        lemma_encode_ascii_seq(e);
        let b = encode_utf8(e);
        assert forall|i: int| 2 <= i < b.len() implies #[trigger] b[i] != 34u8 && b[i] != 92u8 by {}
        lemma_scan_escape_bytes(d, m, b);
    } else if u < 128 {
        assert(e == seq![c]);
        lemma_encode_ascii(c);
        assert(u != 34 && u != 92);
        lemma_scan_string_content(d, m, encode_utf8(e));
    } else {
        assert(e == seq![c]);
        lemma_encode_non_ascii(c);
        lemma_scan_string_content(d, m, encode_utf8(e));
    }
}

/// Scanning the encoding of two texts one after the other is scanning the
/// encoding of their concatenation.
pub proof fn lemma_scan_chars_append(st: ScanState, a: Seq<char>, b: Seq<char>)
    ensures
        scan_from(st, encode_utf8(a + b)) == scan_from(scan_from(st, encode_utf8(a)), encode_utf8(b)),
{
    lemma_encode_utf8_append(a, b);
    lemma_scan_from_append(st, encode_utf8(a), encode_utf8(b));
}

/// Scanning one ASCII character is one scan step on its code.
pub proof fn lemma_scan_ascii_char(st: ScanState, c: char)
    requires
        (c as u32) < 128,
    ensures
        scan_from(st, encode_utf8(seq![c])) == scan_step(st, (c as u32) as u8),
{
    lemma_encode_ascii(c);
    let b = seq![(c as u32) as u8];
    assert(b.drop_last() =~= Seq::<u8>::empty());
    assert(scan_from(st, b.drop_last()) == st);
    assert(b.last() == (c as u32) as u8);
    assert(scan_from(st, b) == scan_step(st, (c as u32) as u8));
}

/// The escaped characters of a string, read inside it, leave the scan where
/// it was: inside the string, at the same depth.
pub proof fn lemma_scan_escaped(d: nat, m: nat, k: Seq<char>)
    ensures
        scan_from((d, m, true, false), encode_utf8(escaped(k))) == (d, m, true, false),
    decreases k.len(),
{
    if k.len() == 0 {
        assert(encode_utf8(escaped(k)) =~= Seq::<u8>::empty());
    } else {
        lemma_scan_escaped(d, m, k.drop_last());
        lemma_scan_chars_append((d, m, true, false), escaped(k.drop_last()), escape_char(k.last()));
        lemma_scan_escape_char(d, m, k.last());
    }
}

/// A JSON string, read outside strings, leaves the scan exactly where it was:
/// whatever its characters (brackets, quotes, backslashes, anything), a
/// string never changes the nesting depth.
pub proof fn lemma_scan_json_string(d: nat, m: nat, k: Seq<char>)
    ensures
        scan_from((d, m, false, false), encode_utf8(json_string(k))) == (d, m, false, false),
{
    let st = (d, m, false, false);
    let q = seq!['"'];
    assert(json_string(k) == q + escaped(k) + q);
    lemma_scan_chars_append(st, q + escaped(k), q);
    lemma_scan_chars_append(st, q, escaped(k));
    lemma_scan_ascii_char(st, '"');
    lemma_scan_escaped(d, m, k);
    lemma_scan_ascii_char((d, m, true, false), '"');
}

/// The decimal digit `n` (below 10).
pub open spec fn digit(n: u8) -> char {
    (48 + n) as char
}

/// How the encoder writes a byte: its decimal digits, without leading zeros.
pub open spec fn decimal(n: u8) -> Seq<char> {
    if n < 10 {
        seq![digit(n)]
    } else if n < 100 {
        seq![digit(n / 10), digit(n % 10)]
    } else {
        seq![digit(n / 100), digit((n / 10) % 10), digit(n % 10)]
    }
}

/// The bytes `v` written as numbers with commas between them.
pub open spec fn numbers_text(v: Seq<u8>) -> Seq<char>
    decreases v.len(),
{
    if v.len() == 0 {
        Seq::empty()
    } else if v.len() == 1 {
        decimal(v[0])
    } else {
        numbers_text(v.drop_last()) + seq![','] + decimal(v.last())
    }
}

/// The JSON array of the bytes `v`.
pub open spec fn array_text(v: Seq<u8>) -> Seq<char> {
    seq!['['] + numbers_text(v) + seq![']']
}

/// One member of a session's JSON object: the key as a JSON string, a colon,
/// and the value's bytes as an array.
pub open spec fn member_text(k: Seq<char>, v: Seq<u8>) -> Seq<char> {
    json_string(k) + seq![':'] + array_text(v)
}

/// The members `e` with commas between them.
pub open spec fn members_text(e: Seq<(Seq<char>, Seq<u8>)>) -> Seq<char>
    decreases e.len(),
{
    if e.len() == 0 {
        Seq::empty()
    } else if e.len() == 1 {
        member_text(e[0].0, e[0].1)
    } else {
        members_text(e.drop_last()) + seq![','] + member_text(e.last().0, e.last().1)
    }
}

/// The JSON object with the members `e`, in that order.
pub open spec fn object_text(e: Seq<(Seq<char>, Seq<u8>)>) -> Seq<char> {
    seq!['{'] + members_text(e) + seq!['}']
}

/// The characters of numbers written with commas are digits and commas.
proof fn lemma_numbers_text_chars(v: Seq<u8>)
    ensures
        forall|i: int|
            0 <= i < numbers_text(v).len() ==> {
                let c = #[trigger] numbers_text(v)[i];
                (48 <= (c as u32) <= 57) || c == ','
            },
    decreases v.len(),
{
    if v.len() == 1 {
        let n = v[0];
        assert(n / 100 < 10 && (n / 10) % 10 < 10 && n % 10 < 10 && (n < 100 ==> n / 10 < 10));
    } else if v.len() > 1 {
        lemma_numbers_text_chars(v.drop_last());
        let n = v.last();
        assert(n / 100 < 10 && (n / 10) % 10 < 10 && n % 10 < 10 && (n < 100 ==> n / 10 < 10));
        let a = numbers_text(v.drop_last());
        let t = a + seq![','] + decimal(n);
        assert forall|i: int| 0 <= i < t.len() implies {
            let c = #[trigger] t[i];
            (48 <= (c as u32) <= 57) || c == ','
        } by {
            if i < a.len() {
                assert(t[i] == a[i]);
            } else if i == a.len() {
            } else {
                assert(t[i] == decimal(n)[i - a.len() - 1]);
            }
        }
    }
}

/// An array of numbers, read outside strings at depth `d`, goes one level
/// deeper and comes back to `d`.
pub proof fn lemma_scan_array(d: nat, m: nat, v: Seq<u8>)
    ensures
        scan_from((d, m, false, false), encode_utf8(array_text(v))) == (
            d,
            if m < d + 1 {
                (d + 1) as nat
            } else {
                m
            },
            false,
            false,
        ),
{
    let st = (d, m, false, false);
    let m2: nat = if m < d + 1 {
        (d + 1) as nat
    } else {
        m
    };
    let n = numbers_text(v);
    lemma_scan_chars_append(st, seq!['['] + n, seq![']']);
    lemma_scan_chars_append(st, seq!['['], n);
    lemma_scan_ascii_char(st, '[');
    lemma_numbers_text_chars(v);
    assert forall|i: int| 0 <= i < n.len() implies (#[trigger] n[i] as u32) < 128 by {}
    lemma_encode_ascii_seq(n);
    let b = encode_utf8(n);
    assert forall|i: int| 0 <= i < b.len() implies #[trigger] b[i] != 34u8 && b[i] != 91u8 && b[i]
        != 93u8 && b[i] != 123u8 && b[i] != 125u8 by {
        assert(b[i] == (n[i] as u32) as u8);
    }
    lemma_scan_plain_outside((d + 1) as nat, m2, b);
    lemma_scan_ascii_char(((d + 1) as nat, m2, false, false), ']');
}

/// One member of a session's object, read at depth 1 outside strings, comes
/// back to depth 1, having gone to depth 2.
pub proof fn lemma_scan_member(m: nat, k: Seq<char>, v: Seq<u8>)
    ensures
        scan_from((1nat, m, false, false), encode_utf8(member_text(k, v))) == (
            1nat,
            if m < 2 {
                2nat
            } else {
                m
            },
            false,
            false,
        ),
{
    let st = (1nat, m, false, false);
    lemma_scan_chars_append(st, json_string(k) + seq![':'], array_text(v));
    lemma_scan_chars_append(st, json_string(k), seq![':']);
    lemma_scan_json_string(1, m, k);
    lemma_scan_ascii_char(st, ':');
    lemma_scan_array(1, m, v);
}

/// The members of a session's object, read at depth 1 outside strings, come
/// back to depth 1 without going deeper than 2.
pub proof fn lemma_scan_members(m: nat, e: Seq<(Seq<char>, Seq<u8>)>)
    requires
        m <= 2,
    ensures
        scan_from((1nat, m, false, false), encode_utf8(members_text(e))).0 == 1,
        scan_from((1nat, m, false, false), encode_utf8(members_text(e))).1 <= 2,
        !scan_from((1nat, m, false, false), encode_utf8(members_text(e))).2,
        !scan_from((1nat, m, false, false), encode_utf8(members_text(e))).3,
    decreases e.len(),
{
    let st = (1nat, m, false, false);
    if e.len() == 0 {
        assert(encode_utf8(members_text(e)) =~= Seq::<u8>::empty());
    } else if e.len() == 1 {
        lemma_scan_member(m, e[0].0, e[0].1);
    } else {
        let front = members_text(e.drop_last());
        lemma_scan_members(m, e.drop_last());
        let mid = scan_from(st, encode_utf8(front));
        lemma_scan_chars_append(st, front + seq![','], member_text(e.last().0, e.last().1));
        lemma_scan_chars_append(st, front, seq![',']);
        lemma_scan_ascii_char(mid, ',');
        lemma_scan_member(mid.1, e.last().0, e.last().1);
    }
}

/// A session's JSON text (an object whose members are strings with arrays of
/// numbers) nests two deep at most, whatever its keys and values, so the
/// decoder is always handed it.
pub proof fn lemma_object_text_depth(e: Seq<(Seq<char>, Seq<u8>)>)
    ensures
        json_depth(encode_utf8(object_text(e))) <= 2,
{
    let st = (0nat, 0nat, false, false);
    let inner = members_text(e);
    lemma_scan_is_scan_from(encode_utf8(object_text(e)));
    lemma_scan_chars_append(st, seq!['{'] + inner, seq!['}']);
    lemma_scan_chars_append(st, seq!['{'], inner);
    lemma_scan_ascii_char(st, '{');
    lemma_scan_members(1, e);
    let after = scan_from((1nat, 1nat, false, false), encode_utf8(inner));
    lemma_scan_ascii_char(after, '}');
}

/// Inside a string no byte changes the nesting: whatever byte comes next,
/// the depth and the deepest depth stay as they were.
pub proof fn lemma_string_bytes_keep_depth(b: Seq<u8>, x: u8)
    requires
        scan(b).2,
    ensures
        scan(b.push(x)).0 == scan(b).0,
        scan(b.push(x)).1 == scan(b).1,
        json_depth(b.push(x)) == json_depth(b),
{
    assert(b.push(x).drop_last() =~= b);
    assert(b.push(x).last() == x);
}

/// `a` comes before `b` in the byte order of strings (as `String`'s `Ord`).
pub open spec fn bytes_lt(a: Seq<u8>, b: Seq<u8>) -> bool
    decreases a.len(),
{
    if a.len() == 0 {
        b.len() > 0
    } else if b.len() == 0 {
        false
    } else if a[0] < b[0] {
        true
    } else if a[0] > b[0] {
        false
    } else {
        bytes_lt(a.drop_first(), b.drop_first())
    }
}

/// The members `e` are in increasing order of their keys' UTF-8 bytes.
pub open spec fn in_key_order(e: Seq<(Seq<char>, Seq<u8>)>) -> bool {
    forall|i: int, j: int|
        0 <= i < j < e.len() ==> bytes_lt(encode_utf8(#[trigger] e[i].0), encode_utf8(#[trigger] e[j].0))
}

/// The entries of a session as pairs of views.
pub open spec fn entry_views(entries: Seq<(String, Vec<u8>)>) -> Seq<(Seq<char>, Seq<u8>)> {
    entries.map_values(|p: (String, Vec<u8>)| (p.0@, p.1@))
}

} // verus!
