//! A byte-level codec for the compact JSON forms this crate persists.
//!
//! Values are modelled as byte sequences.  Serializers are given as spec
//! functions together with executable writers that append to a byte vector;
//! parsers are spec functions from a byte sequence to the parsed value and
//! the number of bytes consumed, mirrored by executable readers.  The
//! round-trip lemmas state that parsing starts from a serialized value
//! recovers exactly that value.

use vstd::prelude::*;

verus! {

// ---------------------------------------------------------------------------
// decimal numbers
// ---------------------------------------------------------------------------

/// ASCII decimal digit.
pub open spec fn is_digit(b: u8) -> bool {
    48 <= b <= 57
}

/// Decimal digits of `n`, most significant first.
pub open spec fn dec_digits(n: nat) -> Seq<u8>
    decreases n,
{
    if n < 10 {
        seq![(48 + n) as u8]
    } else {
        dec_digits(n / 10) + seq![(48 + n % 10) as u8]
    }
}

/// Serialized form of an unsigned 64-bit number.
pub open spec fn ser_u64(n: u64) -> Seq<u8> {
    dec_digits(n as nat)
}

/// Numeric value of a digit string, read left to right.
pub open spec fn digits_val(s: Seq<u8>) -> nat
    decreases s.len(),
{
    if s.len() == 0 {
        0
    } else {
        digits_val(s.drop_last()) * 10 + (if is_digit(s.last()) {
            (s.last() - 48) as nat
        } else {
            0
        })
    }
}

/// Length of the maximal digit prefix of `s`.
pub open spec fn digit_span(s: Seq<u8>) -> int
    decreases s.len(),
{
    if s.len() == 0 || !is_digit(s[0]) {
        0
    } else {
        1 + digit_span(s.skip(1))
    }
}

/// Parses a decimal number from the front of `s`: the value of the maximal
/// digit prefix, and how many bytes it spans.  `None` when no digit leads
/// or the value exceeds `u64::MAX`.
pub open spec fn parse_u64(s: Seq<u8>) -> Option<(u64, int)> {
    let k = digit_span(s);
    if k == 0 {
        None
    } else if digits_val(s.take(k)) > u64::MAX {
        None
    } else {
        Some((digits_val(s.take(k)) as u64, k))
    }
}

pub proof fn lemma_digit_span_bounds(s: Seq<u8>)
    ensures
        0 <= digit_span(s) <= s.len(),
        forall|j: int| 0 <= j < digit_span(s) ==> is_digit(s[j]),
        digit_span(s) < s.len() ==> !is_digit(s[digit_span(s)]),
    decreases s.len(),
{
    if s.len() == 0 || !is_digit(s[0]) {
    } else {
        lemma_digit_span_bounds(s.skip(1));
        assert forall|j: int| 0 <= j < digit_span(s) implies is_digit(s[j]) by {
            if j > 0 {
                assert(is_digit(s.skip(1)[j - 1]));
            }
        }
    }
}

/// Every byte of `dec_digits(n)` is a digit, the first is not below `1`
/// unless `n < 10`, and the digits evaluate back to `n`.
pub proof fn lemma_dec_digits(n: nat)
    ensures
        dec_digits(n).len() >= 1,
        forall|i: int| 0 <= i < dec_digits(n).len() ==> is_digit(#[trigger] dec_digits(n)[i]),
        digits_val(dec_digits(n)) == n,
    decreases n,
{
    if n < 10 {
        assert(seq![(48 + n) as u8].drop_last() =~= Seq::<u8>::empty());
        assert(digits_val(Seq::<u8>::empty()) == 0);
        assert(digits_val(dec_digits(n)) == n);
    } else {
        lemma_dec_digits(n / 10);
        let d = (48 + n % 10) as u8;
        assert(dec_digits(n) == dec_digits(n / 10) + seq![d]);
        assert(dec_digits(n).drop_last() =~= dec_digits(n / 10));
        assert(dec_digits(n).last() == d);
        assert(digits_val(dec_digits(n)) == digits_val(dec_digits(n / 10)) * 10 + n % 10);
        assert((n / 10) * 10 + n % 10 == n);
        assert forall|i: int| 0 <= i < dec_digits(n).len() implies is_digit(
            #[trigger] dec_digits(n)[i],
        ) by {
            if i < dec_digits(n / 10).len() {
                assert(dec_digits(n)[i] == dec_digits(n / 10)[i]);
            } else {
                assert(dec_digits(n)[i] == d);
            }
        }
    }
}

/// A digit string followed by a non-digit spans exactly itself.
pub proof fn lemma_digit_span_concat(a: Seq<u8>, rest: Seq<u8>)
    requires
        forall|i: int| 0 <= i < a.len() ==> is_digit(#[trigger] a[i]),
        rest.len() == 0 || !is_digit(rest[0]),
    ensures
        digit_span(a + rest) == a.len(),
    decreases a.len(),
{
    if a.len() == 0 {
        assert(a + rest =~= rest);
    } else {
        assert((a + rest)[0] == a[0]);
        assert((a + rest).skip(1) =~= a.skip(1) + rest);
        lemma_digit_span_concat(a.skip(1), rest);
    }
}

/// Parsing the serialization of `n` yields `n` back, provided no digit
/// follows it.
pub proof fn lemma_parse_ser_u64(n: u64, rest: Seq<u8>)
    requires
        rest.len() == 0 || !is_digit(rest[0]),
    ensures
        parse_u64(ser_u64(n) + rest) == Some((n, ser_u64(n).len() as int)),
{
    let a = ser_u64(n);
    lemma_dec_digits(n as nat);
    lemma_digit_span_concat(a, rest);
    assert((a + rest).take(a.len() as int) =~= a);
}

/// Extending a digit string can only grow its value.
pub proof fn lemma_digits_val_monotone(s: Seq<u8>, i: int, j: int)
    requires
        0 <= i <= j <= s.len(),
    ensures
        digits_val(s.take(i)) <= digits_val(s.take(j)),
    decreases j - i,
{
    if i < j {
        lemma_digits_val_monotone(s, i, j - 1);
        assert(s.take(j).drop_last() =~= s.take(j - 1));
        assert(digits_val(s.take(j)) >= digits_val(s.take(j - 1)) * 10);
    }
}

/// Reads a decimal `u64` at `pos`, as `parse_u64` describes on the bytes
/// from `pos` on.
pub fn read_u64(v: &Vec<u8>, pos: usize) -> (r: Option<(u64, usize)>)
    requires
        pos <= v.len(),
    ensures
        r is None ==> parse_u64(v@.skip(pos as int)) is None,
        r matches Some(p) ==> parse_u64(v@.skip(pos as int)) == Some((p.0, p.1 as int))
            && pos + p.1 <= v.len() && p.1 >= 1,
{
    let ghost s = v@.skip(pos as int);
    proof {
        lemma_digit_span_bounds(s);
    }
    let mut i: usize = pos;
    let mut acc: u64 = 0;
    while i < v.len() && 48 <= v[i] && v[i] <= 57
        invariant
            pos <= i <= v.len(),
            s == v@.skip(pos as int),
            pos + digit_span(s) >= i,
            forall|j: int| 0 <= j < i - pos ==> is_digit(s[j]),
            acc == digits_val(s.take(i - pos)),
            0 <= digit_span(s) <= s.len(),
            forall|j: int| 0 <= j < digit_span(s) ==> is_digit(s[j]),
            digit_span(s) < s.len() ==> !is_digit(s[digit_span(s)]),
        decreases v.len() - i,
    {
        let d: u8 = v[i] - 48;
        assert(s[i - pos] == v@[i as int]);
        let wide: u128 = acc as u128 * 10 + d as u128;
        proof {
            assert(s.take(i - pos + 1).drop_last() =~= s.take(i - pos));
            assert(digits_val(s.take(i - pos + 1)) == digits_val(s.take(i - pos)) * 10 + d);
        }
        if wide > u64::MAX as u128 {
            proof {
                // the maximal digit prefix reaches at least this far,
                // so the full value overflows as well
                assert(i - pos + 1 <= digit_span(s)) by {
                    if digit_span(s) < i - pos + 1 {
                        assert(is_digit(s[digit_span(s)]));
                    }
                }
                lemma_digits_val_monotone(s, i - pos + 1, digit_span(s));
            }
            return None;
        }
        acc = wide as u64;
        i = i + 1;
    }
    proof {
        // the scan stopped exactly at the end of the digit prefix
        assert(digit_span(s) == i - pos) by {
            if digit_span(s) > i - pos {
                assert(is_digit(s[i - pos]));
                assert(s[i - pos] == v@[i as int]);
            }
        }
    }
    if i == pos {
        None
    } else {
        Some((acc, i - pos))
    }
}

/// Appends the decimal digits of `n` to `out`.
pub fn write_u64(out: &mut Vec<u8>, n: u64)
    ensures
        final(out)@ == old(out)@ + ser_u64(n),
{
    let mut tmp: Vec<u8> = Vec::new();
    let mut m: u64 = n;
    loop
        invariant_except_break
            dec_digits(n as nat) == dec_digits(m as nat) + tmp@.reverse(),
        ensures
            dec_digits(n as nat) == tmp@.reverse(),
        decreases m,
    {
        let d: u8 = (m % 10) as u8 + 48;
        proof {
            assert((tmp@.push(d)).reverse() =~= seq![d] + tmp@.reverse());
            if m >= 10 {
                assert(dec_digits(m as nat) == dec_digits((m as nat) / 10) + seq![d]);
                assert(dec_digits((m as nat) / 10) + (seq![d] + tmp@.reverse()) =~= (dec_digits(
                    (m as nat) / 10,
                ) + seq![d]) + tmp@.reverse());
            } else {
                assert(dec_digits(m as nat) == seq![d]);
                assert(seq![d] + tmp@.reverse() =~= dec_digits(m as nat) + tmp@.reverse());
            }
        }
        tmp.push(d);
        m = m / 10;
        if m == 0 {
            break;
        }
    }
    let mut i: usize = tmp.len();
    while i > 0
        invariant
            i <= tmp.len(),
            dec_digits(n as nat) == tmp@.reverse(),
            out@ =~= old(out)@ + tmp@.reverse().take(tmp.len() - i),
        decreases i,
    {
        i = i - 1;
        assert(tmp@[i as int] == tmp@.reverse()[tmp.len() - 1 - i]);
        out.push(tmp[i]);
        assert(out@ =~= old(out)@ + tmp@.reverse().take(tmp.len() - i));
    }
    assert(tmp@.reverse().take(tmp.len() as int) =~= tmp@.reverse());
}

// ---------------------------------------------------------------------------
// strings
// ---------------------------------------------------------------------------

/// Lowercase hex digit for a value below 16.
pub open spec fn hex_digit(n: u8) -> u8 {
    if n < 10 {
        (48 + n) as u8
    } else {
        (87 + n) as u8
    }
}

/// Hex digit value, either case.
pub open spec fn hex_val(b: u8) -> Option<u8> {
    if 48 <= b <= 57 {
        Some((b - 48) as u8)
    } else if 97 <= b <= 102 {
        Some((b - 87) as u8)
    } else if 65 <= b <= 70 {
        Some((b - 55) as u8)
    } else {
        None
    }
}

/// JSON escape of one byte: quote and backslash get a backslash, bytes
/// below 0x20 become a `\u00..` escape, the rest stand for themselves.
pub open spec fn esc_byte(b: u8) -> Seq<u8> {
    if b == 34 || b == 92 {
        seq![92u8, b]
    } else if b < 32 {
        seq![92u8, 117u8, 48u8, 48u8, hex_digit(b / 16), hex_digit(b % 16)]
    } else {
        seq![b]
    }
}

/// JSON escape of a byte string.
pub open spec fn esc(s: Seq<u8>) -> Seq<u8>
    decreases s.len(),
{
    if s.len() == 0 {
        Seq::empty()
    } else {
        esc_byte(s[0]) + esc(s.skip(1))
    }
}

/// Serialized form of a byte string: quoted and escaped.
pub open spec fn ser_str(s: Seq<u8>) -> Seq<u8> {
    seq![34u8] + esc(s) + seq![34u8]
}

/// Parses the remainder of a quoted string, the opening quote already
/// consumed; yields the unescaped content and the bytes consumed, closing
/// quote included.
pub open spec fn parse_str_body(s: Seq<u8>) -> Option<(Seq<u8>, int)>
    decreases s.len(),
{
    if s.len() == 0 {
        None
    } else if s[0] == 34 {
        Some((Seq::empty(), 1))
    } else if s[0] == 92 {
        if s.len() < 2 {
            None
        } else if s[1] == 34 || s[1] == 92 {
            match parse_str_body(s.skip(2)) {
                Option::None => None,
                Option::Some((t, k)) => Some((seq![s[1]] + t, k + 2)),
            }
        } else if s[1] == 117 {
            if s.len() < 6 {
                None
            } else if s[2] == 48 && s[3] == 48 {
                match (hex_val(s[4]), hex_val(s[5])) {
                    (Option::Some(h), Option::Some(l)) => match parse_str_body(s.skip(6)) {
                        Option::None => None,
                        Option::Some((t, k)) => Some((seq![(h * 16 + l) as u8] + t, k + 6)),
                    },
                    _ => None,
                }
            } else {
                None
            }
        } else {
            None
        }
    } else if s[0] < 32 {
        None
    } else {
        match parse_str_body(s.skip(1)) {
            Option::None => None,
            Option::Some((t, k)) => Some((seq![s[0]] + t, k + 1)),
        }
    }
}

/// Parses a quoted string from the front of `s`.
pub open spec fn parse_str(s: Seq<u8>) -> Option<(Seq<u8>, int)> {
    if s.len() == 0 || s[0] != 34 {
        None
    } else {
        match parse_str_body(s.skip(1)) {
            Option::None => None,
            Option::Some((t, k)) => Some((t, k + 1)),
        }
    }
}

/// Unescaping inverts escaping, whatever follows the closing quote.
pub proof fn lemma_parse_esc(t: Seq<u8>, rest: Seq<u8>)
    ensures
        parse_str_body(esc(t) + seq![34u8] + rest) == Some((t, esc(t).len() + 1 as int)),
    decreases t.len(),
{
    let s = esc(t) + seq![34u8] + rest;
    if t.len() == 0 {
        assert(s[0] == 34);
    } else {
        let b = t[0];
        lemma_parse_esc(t.skip(1), rest);
        if b == 34 || b == 92 {
            assert(s[0] == 92 && s[1] == b);
            assert(s.skip(2) =~= esc(t.skip(1)) + seq![34u8] + rest);
            assert(seq![b] + t.skip(1) =~= t);
        } else if b < 32 {
            assert(s[0] == 92 && s[1] == 117 && s[2] == 48 && s[3] == 48);
            assert(s[4] == hex_digit(b / 16) && s[5] == hex_digit(b % 16));
            assert(hex_val(hex_digit(b / 16)) == Some((b / 16) as u8));
            assert(hex_val(hex_digit(b % 16)) == Some((b % 16) as u8));
            assert((b / 16) * 16 + b % 16 == b);
            assert(s.skip(6) =~= esc(t.skip(1)) + seq![34u8] + rest);
            assert(seq![b] + t.skip(1) =~= t);
        } else {
            assert(s[0] == b);
            assert(s.skip(1) =~= esc(t.skip(1)) + seq![34u8] + rest);
            assert(seq![b] + t.skip(1) =~= t);
        }
    }
}

/// Parsing the serialization of a byte string yields it back.
pub proof fn lemma_parse_ser_str(t: Seq<u8>, rest: Seq<u8>)
    ensures
        parse_str(ser_str(t) + rest) == Some((t, ser_str(t).len() as int)),
{
    let s = ser_str(t) + rest;
    assert(s[0] == 34);
    assert(s.skip(1) =~= esc(t) + seq![34u8] + rest);
    lemma_parse_esc(t, rest);
}

/// Escaping distributes over concatenation.
pub proof fn lemma_esc_append(a: Seq<u8>, b: Seq<u8>)
    ensures
        esc(a + b) == esc(a) + esc(b),
    decreases a.len(),
{
    if a.len() == 0 {
        assert(a + b =~= b);
        assert(esc(a) + esc(b) =~= esc(b));
    } else {
        assert((a + b)[0] == a[0]);
        assert((a + b).skip(1) =~= a.skip(1) + b);
        lemma_esc_append(a.skip(1), b);
        assert(esc_byte(a[0]) + (esc(a.skip(1)) + esc(b)) =~= (esc_byte(a[0]) + esc(a.skip(1)))
            + esc(b));
    }
}

/// Appends the quoted, escaped form of `s` to `out`.
pub fn write_str(out: &mut Vec<u8>, s: &Vec<u8>)
    ensures
        final(out)@ == old(out)@ + ser_str(s@),
{
    out.push(34);
    let mut i: usize = 0;
    while i < s.len()
        invariant
            i <= s.len(),
            out@ =~= old(out)@ + seq![34u8] + esc(s@.take(i as int)),
        decreases s.len() - i,
    {
        let b = s[i];
        proof {
            assert(s@.take(i + 1) =~= s@.take(i as int) + seq![b]);
            lemma_esc_append(s@.take(i as int), seq![b]);
            assert(seq![b].skip(1) =~= Seq::<u8>::empty());
            assert(esc(seq![b]) =~= esc_byte(b) + esc(Seq::<u8>::empty()));
            assert(esc(seq![b]) =~= esc_byte(b));
        }
        if b == 34 || b == 92 {
            out.push(92);
            out.push(b);
        } else if b < 32 {
            out.push(92);
            out.push(117);
            out.push(48);
            out.push(48);
            let h = b / 16;
            let l = b % 16;
            out.push(if h < 10 { 48 + h } else { 87 + h });
            out.push(if l < 10 { 48 + l } else { 87 + l });
        } else {
            out.push(b);
        }
        assert(out@ =~= old(out)@ + seq![34u8] + esc(s@.take(i + 1)));
        i = i + 1;
    }
    assert(s@.take(s@.len() as int) =~= s@);
    out.push(34);
    assert(out@ =~= old(out)@ + ser_str(s@));
}

/// Reads a quoted string at `pos`, as `parse_str` describes on the bytes
/// from `pos` on.
pub fn read_str(v: &Vec<u8>, pos: usize) -> (r: Option<(Vec<u8>, usize)>)
    requires
        pos <= v.len(),
    ensures
        r is None ==> parse_str(v@.skip(pos as int)) is None,
        r matches Some(p) ==> parse_str(v@.skip(pos as int)) == Some((p.0@, p.1 as int))
            && pos + p.1 <= v.len() && p.1 >= 2,
{
    let ghost s = v@.skip(pos as int);
    if pos == v.len() {
        return None;
    }
    assert(s[0] == v@[pos as int]);
    if v[pos] != 34 {
        return None;
    }
    assert(s.skip(1) =~= v@.skip(pos + 1));
    match read_str_body(v, pos + 1) {
        Option::None => None,
        Option::Some((t, k)) => Some((t, k + 1)),
    }
}

/// Reads the remainder of a quoted string, as `parse_str_body` describes.
fn read_str_body(v: &Vec<u8>, pos: usize) -> (r: Option<(Vec<u8>, usize)>)
    requires
        pos <= v.len(),
    ensures
        r is None ==> parse_str_body(v@.skip(pos as int)) is None,
        r matches Some(p) ==> parse_str_body(v@.skip(pos as int)) == Some((p.0@, p.1 as int))
            && pos + p.1 <= v.len() && p.1 >= 1,
    decreases v.len() - pos,
{
    let ghost s = v@.skip(pos as int);
    if pos == v.len() {
        return None;
    }
    let b = v[pos];
    assert(s[0] == b);
    if b == 34 {
        return Some((Vec::new(), 1));
    }
    if b == 92 {
        if pos + 1 == v.len() {
            return None;
        }
        let c = v[pos + 1];
        assert(s[1] == c);
        if c == 34 || c == 92 {
            assert(s.skip(2) =~= v@.skip(pos + 2));
            match read_str_body(v, pos + 2) {
                Option::None => None,
                Option::Some((t, k)) => {
                    let mut out: Vec<u8> = Vec::new();
                    out.push(c);
                    out = append_bytes(out, &t);
                    assert(out@ =~= seq![c] + t@);
                    Some((out, k + 2))
                },
            }
        } else if c == 117 {
            if v.len() - pos < 6 {
                return None;
            }
            if v[pos + 2] != 48 || v[pos + 3] != 48 {
                return None;
            }
            assert(s[2] == v@[pos + 2] && s[3] == v@[pos + 3]);
            assert(s[4] == v@[pos + 4] && s[5] == v@[pos + 5]);
            let h = match read_hex_digit(v[pos + 4]) {
                Option::Some(h) => h,
                Option::None => {
                    return None;
                },
            };
            let l = match read_hex_digit(v[pos + 5]) {
                Option::Some(l) => l,
                Option::None => {
                    return None;
                },
            };
            assert(s.skip(6) =~= v@.skip(pos + 6));
            match read_str_body(v, pos + 6) {
                Option::None => None,
                Option::Some((t, k)) => {
                    let mut out: Vec<u8> = Vec::new();
                    out.push(h * 16 + l);
                    out = append_bytes(out, &t);
                    assert(out@ =~= seq![(h * 16 + l) as u8] + t@);
                    Some((out, k + 6))
                },
            }
        } else {
            None
        }
    } else if b < 32 {
        None
    } else {
        assert(s.skip(1) =~= v@.skip(pos + 1));
        match read_str_body(v, pos + 1) {
            Option::None => None,
            Option::Some((t, k)) => {
                let mut out: Vec<u8> = Vec::new();
                out.push(b);
                out = append_bytes(out, &t);
                assert(out@ =~= seq![b] + t@);
                Some((out, k + 1))
            },
        }
    }
}

/// Hex digit value of one byte, either case.
fn read_hex_digit(b: u8) -> (r: Option<u8>)
    ensures
        r == hex_val(b),
{
    if 48 <= b && b <= 57 {
        Some(b - 48)
    } else if 97 <= b && b <= 102 {
        Some(b - 87)
    } else if 65 <= b && b <= 70 {
        Some(b - 55)
    } else {
        None
    }
}

// ---------------------------------------------------------------------------
// byte arrays, as JSON arrays of numbers
// ---------------------------------------------------------------------------

/// Comma-separated decimal items of a non-empty byte array.
pub open spec fn ser_bytes_items(v: Seq<u8>) -> Seq<u8>
    decreases v.len(),
{
    if v.len() == 0 {
        Seq::empty()
    } else if v.len() == 1 {
        ser_u64(v[0] as u64)
    } else {
        ser_u64(v[0] as u64) + seq![44u8] + ser_bytes_items(v.skip(1))
    }
}

/// Serialized form of a byte array: bracketed decimal items.
pub open spec fn ser_bytes(v: Seq<u8>) -> Seq<u8> {
    seq![91u8] + ser_bytes_items(v) + seq![93u8]
}

/// Parses one or more comma-separated byte values followed by the closing
/// bracket; yields the bytes and the count consumed, bracket included.
pub open spec fn parse_bytes_items(s: Seq<u8>) -> Option<(Seq<u8>, int)>
    decreases s.len(),
{
    match parse_u64(s) {
        Option::None => None,
        Option::Some((n, k)) => if n > 255 {
            None
        } else if 1 <= k && k < s.len() && s[k] == 44 {
            match parse_bytes_items(s.skip(k + 1)) {
                Option::None => None,
                Option::Some((t, k2)) => Some((seq![n as u8] + t, k + 1 + k2)),
            }
        } else if k < s.len() && s[k] == 93 {
            Some((seq![n as u8], k + 1))
        } else {
            None
        },
    }
}

/// Parses a byte array from the front of `s`, closing bracket included in
/// the count consumed.
pub open spec fn parse_bytes(s: Seq<u8>) -> Option<(Seq<u8>, int)> {
    if s.len() < 2 || s[0] != 91 {
        None
    } else if s[1] == 93 {
        Some((Seq::empty(), 2))
    } else {
        match parse_bytes_items(s.skip(1)) {
            Option::None => None,
            Option::Some((t, k)) => Some((t, k + 1)),
        }
    }
}

pub proof fn lemma_parse_ser_bytes_items(v: Seq<u8>, rest: Seq<u8>)
    requires
        v.len() >= 1,
    ensures
        parse_bytes_items(ser_bytes_items(v) + seq![93u8] + rest) == Some(
            (v, ser_bytes_items(v).len() + 1 as int),
        ),
    decreases v.len(),
{
    let s = ser_bytes_items(v) + seq![93u8] + rest;
    let d = ser_u64(v[0] as u64);
    lemma_dec_digits(v[0] as nat);
    if v.len() == 1 {
        assert(s =~= d + (seq![93u8] + rest));
        lemma_parse_ser_u64(v[0] as u64, seq![93u8] + rest);
        assert(s[d.len() as int] == 93);
        assert(seq![v[0]] =~= v);
    } else {
        let tail = ser_bytes_items(v.skip(1));
        assert(s =~= d + (seq![44u8] + tail + seq![93u8] + rest));
        lemma_parse_ser_u64(v[0] as u64, seq![44u8] + tail + seq![93u8] + rest);
        assert(s[d.len() as int] == 44);
        assert(s.skip(d.len() + 1 as int) =~= tail + seq![93u8] + rest);
        lemma_parse_ser_bytes_items(v.skip(1), rest);
        assert(seq![v[0]] + v.skip(1) =~= v);
    }
}

/// Parsing the serialization of a byte array yields it back.
pub proof fn lemma_parse_ser_bytes(v: Seq<u8>, rest: Seq<u8>)
    ensures
        parse_bytes(ser_bytes(v) + rest) == Some((v, ser_bytes(v).len() as int)),
{
    let s = ser_bytes(v) + rest;
    assert(s[0] == 91);
    if v.len() == 0 {
        assert(s[1] == 93);
        assert(v =~= Seq::<u8>::empty());
    } else {
        lemma_dec_digits(v[0] as nat);
        assert(s[1] == ser_u64(v[0] as u64)[0]);
        assert(is_digit(s[1]) && s[1] != 93);
        assert(s.skip(1) =~= ser_bytes_items(v) + seq![93u8] + rest);
        lemma_parse_ser_bytes_items(v, rest);
    }
}

/// `ser_bytes_items` distributes over splitting off the first element.
pub proof fn lemma_ser_bytes_items_append(v: Seq<u8>, x: u8)
    ensures
        ser_bytes_items(v.push(x)) == if v.len() == 0 {
            ser_u64(x as u64)
        } else {
            ser_bytes_items(v) + seq![44u8] + ser_u64(x as u64)
        },
    decreases v.len(),
{
    if v.len() == 0 {
        assert(v.push(x) =~= seq![x]);
        assert(ser_bytes_items(seq![x]) == ser_u64(x as u64));
    } else {
        assert(v.push(x)[0] == v[0]);
        assert(v.push(x).skip(1) =~= v.skip(1).push(x));
        lemma_ser_bytes_items_append(v.skip(1), x);
        if v.len() == 1 {
            assert(v.skip(1).len() == 0);
            assert(ser_bytes_items(v) == ser_u64(v[0] as u64));
            assert(ser_bytes_items(v.push(x)) =~= ser_bytes_items(v) + seq![44u8] + ser_u64(
                x as u64,
            ));
        } else {
            assert(ser_bytes_items(v.push(x)) =~= ser_bytes_items(v) + seq![44u8] + ser_u64(
                x as u64,
            ));
        }
    }
}

/// Appends the bracketed decimal form of `s` to `out`.
pub fn write_bytes(out: &mut Vec<u8>, s: &Vec<u8>)
    ensures
        final(out)@ == old(out)@ + ser_bytes(s@),
{
    out.push(91);
    let mut i: usize = 0;
    while i < s.len()
        invariant
            i <= s.len(),
            out@ =~= old(out)@ + seq![91u8] + ser_bytes_items(s@.take(i as int)),
        decreases s.len() - i,
    {
        proof {
            assert(s@.take(i + 1) =~= s@.take(i as int).push(s@[i as int]));
            lemma_ser_bytes_items_append(s@.take(i as int), s@[i as int]);
        }
        if i > 0 {
            out.push(44);
        } else {
            assert(s@.take(0int).len() == 0);
        }
        write_u64(out, s[i] as u64);
        assert(out@ =~= old(out)@ + seq![91u8] + ser_bytes_items(s@.take(i + 1)));
        i = i + 1;
    }
    assert(s@.take(s@.len() as int) =~= s@);
    out.push(93);
    assert(out@ =~= old(out)@ + ser_bytes(s@));
}

/// Reads the items of a byte array, as `parse_bytes_items` describes.
fn read_bytes_items(v: &Vec<u8>, pos: usize) -> (r: Option<(Vec<u8>, usize)>)
    requires
        pos <= v.len(),
    ensures
        r is None ==> parse_bytes_items(v@.skip(pos as int)) is None,
        r matches Some(p) ==> parse_bytes_items(v@.skip(pos as int)) == Some((p.0@, p.1 as int))
            && pos + p.1 <= v.len() && p.1 >= 1,
    decreases v.len() - pos,
{
    let ghost s = v@.skip(pos as int);
    let (n, k) = match read_u64(v, pos) {
        Option::Some(p) => p,
        Option::None => {
            return None;
        },
    };
    if n > 255 {
        return None;
    }
    if pos + k < v.len() && v[pos + k] == 44 {
        assert(s[k as int] == v@[pos + k]);
        assert(s.skip(k + 1) =~= v@.skip(pos + k + 1));
        match read_bytes_items(v, pos + k + 1) {
            Option::None => None,
            Option::Some((t, k2)) => {
                let mut outv: Vec<u8> = Vec::new();
                outv.push(n as u8);
                outv = append_bytes(outv, &t);
                assert(outv@ =~= seq![n as u8] + t@);
                Some((outv, k + 1 + k2))
            },
        }
    } else if pos + k < v.len() && v[pos + k] == 93 {
        assert(s[k as int] == v@[pos + k]);
        let mut outv: Vec<u8> = Vec::new();
        outv.push(n as u8);
        assert(outv@ =~= seq![n as u8]);
        Some((outv, k + 1))
    } else {
        assert(k < s.len() ==> s[k as int] == v@[pos + k]);
        None
    }
}

/// Reads a byte array at `pos`, as `parse_bytes` describes on the bytes
/// from `pos` on.
pub fn read_bytes(v: &Vec<u8>, pos: usize) -> (r: Option<(Vec<u8>, usize)>)
    requires
        pos <= v.len(),
    ensures
        r is None ==> parse_bytes(v@.skip(pos as int)) is None,
        r matches Some(p) ==> parse_bytes(v@.skip(pos as int)) == Some((p.0@, p.1 as int))
            && pos + p.1 <= v.len() && p.1 >= 2,
{
    let ghost s = v@.skip(pos as int);
    if v.len() - pos < 2 || v[pos] != 91 {
        assert(s.len() >= 2 ==> s[0] == v@[pos as int]);
        return None;
    }
    assert(s[0] == v@[pos as int] && s[1] == v@[pos + 1]);
    if v[pos + 1] == 93 {
        return Some((Vec::new(), 2));
    }
    assert(s.skip(1) =~= v@.skip(pos + 1));
    match read_bytes_items(v, pos + 1) {
        Option::None => None,
        Option::Some((t, k)) => Some((t, k + 1)),
    }
}

/// Appends `t` to `out` and returns it.
pub fn append_bytes(out: Vec<u8>, t: &Vec<u8>) -> (r: Vec<u8>)
    ensures
        r@ == out@ + t@,
{
    let ghost orig = out@;
    let mut out = out;
    let mut i: usize = 0;
    while i < t.len()
        invariant
            i <= t.len(),
            out@ =~= orig + t@.take(i as int),
        decreases t.len() - i,
    {
        out.push(t[i]);
        i = i + 1;
    }
    assert(out@ =~= orig + t@);
    out
}

} // verus!
