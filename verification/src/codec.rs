//! Serialized forms of the crate's records: the compact JSON this crate
//! writes to storage and hands to its host, with parsers that invert them.
//!
//! The parsers accept exactly the canonical compact rendering — the one
//! the serializers here produce, with the fields in declaration order and
//! no interleaved whitespace — and return nothing for anything else.
//! That narrowing is deliberate: every value this crate stores is its own
//! output, a foreign producer with the same schema emits the same compact
//! form, and one acceptable text per value keeps the round-trip proofs
//! exact.  A reformatted text (extra whitespace, reordered fields) is
//! treated as unparsable, where a general JSON reader would accept it.

use vstd::prelude::*;

use crate::account::{Identity, Secret};
use crate::bytes::{push_all, starts_with_at};
use crate::group::{Group, GroupView};
use crate::hash::MessageHash;
use crate::json::{
    parse_bytes, parse_str, parse_u64, read_bytes, read_str, read_u64, ser_bytes, ser_str,
    ser_u64, write_bytes, write_str, write_u64,
};
use crate::message::{Message, MessageView, Signature, SignedMessage, SignedMessageView};

verus! {

/// The text `{"message":`.
pub open spec fn lit_sm_open() -> Seq<u8> {
    seq![123u8, 34, 109, 101, 115, 115, 97, 103, 101, 34, 58]
}

fn build_sm_open() -> (r: Vec<u8>)
    ensures
        r@ == lit_sm_open(),
{
    let mut v: Vec<u8> = Vec::new();
    v.push(123);
    v.push(34);
    v.push(109);
    v.push(101);
    v.push(115);
    v.push(115);
    v.push(97);
    v.push(103);
    v.push(101);
    v.push(34);
    v.push(58);
    assert(v@ =~= lit_sm_open());
    v
}

/// The text `,"id":`.
pub open spec fn lit_sm_id() -> Seq<u8> {
    seq![44u8, 34, 105, 100, 34, 58]
}

fn build_sm_id() -> (r: Vec<u8>)
    ensures
        r@ == lit_sm_id(),
{
    let mut v: Vec<u8> = Vec::new();
    v.push(44);
    v.push(34);
    v.push(105);
    v.push(100);
    v.push(34);
    v.push(58);
    assert(v@ =~= lit_sm_id());
    v
}

/// The text `,"seq":`.
pub open spec fn lit_sm_seq() -> Seq<u8> {
    seq![44u8, 34, 115, 101, 113, 34, 58]
}

fn build_sm_seq() -> (r: Vec<u8>)
    ensures
        r@ == lit_sm_seq(),
{
    let mut v: Vec<u8> = Vec::new();
    v.push(44);
    v.push(34);
    v.push(115);
    v.push(101);
    v.push(113);
    v.push(34);
    v.push(58);
    assert(v@ =~= lit_sm_seq());
    v
}

/// The text `,"signature":`.
pub open spec fn lit_sm_sig() -> Seq<u8> {
    seq![44u8, 34, 115, 105, 103, 110, 97, 116, 117, 114, 101, 34, 58]
}

fn build_sm_sig() -> (r: Vec<u8>)
    ensures
        r@ == lit_sm_sig(),
{
    let mut v: Vec<u8> = Vec::new();
    v.push(44);
    v.push(34);
    v.push(115);
    v.push(105);
    v.push(103);
    v.push(110);
    v.push(97);
    v.push(116);
    v.push(117);
    v.push(114);
    v.push(101);
    v.push(34);
    v.push(58);
    assert(v@ =~= lit_sm_sig());
    v
}

/// The text `{"previous_hash":`.
pub open spec fn lit_msg_open() -> Seq<u8> {
    seq![123u8, 34, 112, 114, 101, 118, 105, 111, 117, 115, 95, 104, 97, 115, 104, 34, 58]
}

fn build_msg_open() -> (r: Vec<u8>)
    ensures
        r@ == lit_msg_open(),
{
    let mut v: Vec<u8> = Vec::new();
    v.push(123);
    v.push(34);
    v.push(112);
    v.push(114);
    v.push(101);
    v.push(118);
    v.push(105);
    v.push(111);
    v.push(117);
    v.push(115);
    v.push(95);
    v.push(104);
    v.push(97);
    v.push(115);
    v.push(104);
    v.push(34);
    v.push(58);
    assert(v@ =~= lit_msg_open());
    v
}

/// The text `,"data":`.
pub open spec fn lit_msg_data() -> Seq<u8> {
    seq![44u8, 34, 100, 97, 116, 97, 34, 58]
}

fn build_msg_data() -> (r: Vec<u8>)
    ensures
        r@ == lit_msg_data(),
{
    let mut v: Vec<u8> = Vec::new();
    v.push(44);
    v.push(34);
    v.push(100);
    v.push(97);
    v.push(116);
    v.push(97);
    v.push(34);
    v.push(58);
    assert(v@ =~= lit_msg_data());
    v
}

/// The text `{"public_key":`.
pub open spec fn lit_id_open() -> Seq<u8> {
    seq![123u8, 34, 112, 117, 98, 108, 105, 99, 95, 107, 101, 121, 34, 58]
}

fn build_id_open() -> (r: Vec<u8>)
    ensures
        r@ == lit_id_open(),
{
    let mut v: Vec<u8> = Vec::new();
    v.push(123);
    v.push(34);
    v.push(112);
    v.push(117);
    v.push(98);
    v.push(108);
    v.push(105);
    v.push(99);
    v.push(95);
    v.push(107);
    v.push(101);
    v.push(121);
    v.push(34);
    v.push(58);
    assert(v@ =~= lit_id_open());
    v
}

/// The text `{"signature":`.
pub open spec fn lit_sig_open() -> Seq<u8> {
    seq![123u8, 34, 115, 105, 103, 110, 97, 116, 117, 114, 101, 34, 58]
}

fn build_sig_open() -> (r: Vec<u8>)
    ensures
        r@ == lit_sig_open(),
{
    let mut v: Vec<u8> = Vec::new();
    v.push(123);
    v.push(34);
    v.push(115);
    v.push(105);
    v.push(103);
    v.push(110);
    v.push(97);
    v.push(116);
    v.push(117);
    v.push(114);
    v.push(101);
    v.push(34);
    v.push(58);
    assert(v@ =~= lit_sig_open());
    v
}

/// The text `{"private_key":`.
pub open spec fn lit_secret_open() -> Seq<u8> {
    seq![123u8, 34, 112, 114, 105, 118, 97, 116, 101, 95, 107, 101, 121, 34, 58]
}

fn build_secret_open() -> (r: Vec<u8>)
    ensures
        r@ == lit_secret_open(),
{
    let mut v: Vec<u8> = Vec::new();
    v.push(123);
    v.push(34);
    v.push(112);
    v.push(114);
    v.push(105);
    v.push(118);
    v.push(97);
    v.push(116);
    v.push(101);
    v.push(95);
    v.push(107);
    v.push(101);
    v.push(121);
    v.push(34);
    v.push(58);
    assert(v@ =~= lit_secret_open());
    v
}

/// The text `{"id":`.
pub open spec fn lit_group_open() -> Seq<u8> {
    seq![123u8, 34, 105, 100, 34, 58]
}

fn build_group_open() -> (r: Vec<u8>)
    ensures
        r@ == lit_group_open(),
{
    let mut v: Vec<u8> = Vec::new();
    v.push(123);
    v.push(34);
    v.push(105);
    v.push(100);
    v.push(34);
    v.push(58);
    assert(v@ =~= lit_group_open());
    v
}

/// The text `,"timestamp":`.
pub open spec fn lit_group_ts() -> Seq<u8> {
    seq![44u8, 34, 116, 105, 109, 101, 115, 116, 97, 109, 112, 34, 58]
}

fn build_group_ts() -> (r: Vec<u8>)
    ensures
        r@ == lit_group_ts(),
{
    let mut v: Vec<u8> = Vec::new();
    v.push(44);
    v.push(34);
    v.push(116);
    v.push(105);
    v.push(109);
    v.push(101);
    v.push(115);
    v.push(116);
    v.push(97);
    v.push(109);
    v.push(112);
    v.push(34);
    v.push(58);
    assert(v@ =~= lit_group_ts());
    v
}

// ---------------------------------------------------------------------------
// objects with one string field: identity, signature, secret
// ---------------------------------------------------------------------------

/// Serialized form of an object with one string field under the key that
/// `lit` opens.
pub open spec fn ser_str_obj(t: Seq<u8>, lit: Seq<u8>) -> Seq<u8> {
    lit + ser_str(t) + seq![125u8]
}

/// Parses such an object from the front of `s`.
pub open spec fn parse_str_obj(s: Seq<u8>, lit: Seq<u8>) -> Option<(Seq<u8>, int)> {
    if !lit.is_prefix_of(s) {
        None
    } else {
        match parse_str(s.skip(lit.len() as int)) {
            Option::None => None,
            Option::Some((t, k)) => {
                let p = lit.len() + k;
                if p < s.len() && s[p as int] == 125 {
                    Some((t, p + 1 as int))
                } else {
                    None
                }
            },
        }
    }
}

pub proof fn lemma_parse_ser_str_obj(t: Seq<u8>, lit: Seq<u8>, rest: Seq<u8>)
    ensures
        parse_str_obj(ser_str_obj(t, lit) + rest, lit) == Some(
            (t, ser_str_obj(t, lit).len() as int),
        ),
{
    let s = ser_str_obj(t, lit) + rest;
    assert(lit =~= s.subrange(0, lit.len() as int));
    assert(s.skip(lit.len() as int) =~= ser_str(t) + (seq![125u8] + rest));
    crate::json::lemma_parse_ser_str(t, seq![125u8] + rest);
    let p = lit.len() + ser_str(t).len();
    assert(s[p as int] == 125);
}

/// Reads such an object at `pos`, as `parse_str_obj` describes.
fn read_str_obj(v: &Vec<u8>, pos: usize, lit: &Vec<u8>) -> (r: Option<(Vec<u8>, usize)>)
    requires
        pos <= v.len(),
    ensures
        r is None ==> parse_str_obj(v@.skip(pos as int), lit@) is None,
        r matches Some(p) ==> parse_str_obj(v@.skip(pos as int), lit@) == Some(
            (p.0@, p.1 as int),
        ) && pos + p.1 <= v.len(),
{
    let ghost s = v@.skip(pos as int);
    if !starts_with_at(v, pos, lit) {
        return None;
    }
    let p0 = pos + lit.len();
    assert(s.skip(lit@.len() as int) =~= v@.skip(p0 as int));
    let (t, k) = match read_str(v, p0) {
        Option::Some(p) => p,
        Option::None => {
            return None;
        },
    };
    let p1 = p0 + k;
    if p1 < v.len() && v[p1] == 125 {
        assert(s[lit@.len() + k] == v@[p1 as int]);
        Some((t, lit.len() + k + 1))
    } else {
        assert(lit@.len() + k < s.len() ==> s[lit@.len() + k] == v@[p1 as int]);
        None
    }
}

/// Appends such an object to `out`.
fn write_str_obj(out: &mut Vec<u8>, t: &Vec<u8>, lit: &Vec<u8>)
    ensures
        final(out)@ == old(out)@ + ser_str_obj(t@, lit@),
{
    push_all(out, lit);
    write_str(out, t);
    out.push(125);
    assert(out@ =~= old(out)@ + ser_str_obj(t@, lit@));
}

// ---------------------------------------------------------------------------
// messages
// ---------------------------------------------------------------------------

/// Serialized form of a message.
pub open spec fn ser_message(m: MessageView) -> Seq<u8> {
    lit_msg_open() + ser_bytes(m.previous_hash) + lit_msg_data() + ser_bytes(m.data) + seq![125u8]
}

/// Parses a message from the front of `s`.  The previous hash must hold
/// exactly 32 bytes.
pub open spec fn parse_message(s: Seq<u8>) -> Option<(MessageView, int)> {
    if !lit_msg_open().is_prefix_of(s) {
        None
    } else {
        match parse_bytes(s.skip(lit_msg_open().len() as int)) {
            Option::None => None,
            Option::Some((ph, k1)) => {
                if ph.len() != 32 {
                    None
                } else {
                    let p1 = lit_msg_open().len() + k1;
                    if !lit_msg_data().is_prefix_of(s.skip(p1 as int)) {
                        None
                    } else {
                        match parse_bytes(s.skip(p1 + lit_msg_data().len())) {
                            Option::None => None,
                            Option::Some((d, k2)) => {
                                let p2 = p1 + lit_msg_data().len() + k2;
                                if p2 < s.len() && s[p2 as int] == 125 {
                                    Some((MessageView { previous_hash: ph, data: d }, p2 + 1 as int))
                                } else {
                                    None
                                }
                            },
                        }
                    }
                }
            },
        }
    }
}

pub proof fn lemma_parse_ser_message(m: MessageView, rest: Seq<u8>)
    requires
        m.wf(),
    ensures
        parse_message(ser_message(m) + rest) == Some((m, ser_message(m).len() as int)),
{
    let s = ser_message(m) + rest;
    let a = lit_msg_open();
    let b = ser_bytes(m.previous_hash);
    let c = lit_msg_data();
    let d = ser_bytes(m.data);
    assert(a =~= s.subrange(0, a.len() as int));
    assert(s.skip(a.len() as int) =~= b + (c + d + seq![125u8] + rest));
    crate::json::lemma_parse_ser_bytes(m.previous_hash, c + d + seq![125u8] + rest);
    let p1 = a.len() + b.len();
    assert(s.skip(p1 as int) =~= c + (d + seq![125u8] + rest));
    assert(c =~= s.skip(p1 as int).subrange(0, c.len() as int));
    assert(s.skip((p1 + c.len()) as int) =~= d + (seq![125u8] + rest));
    crate::json::lemma_parse_ser_bytes(m.data, seq![125u8] + rest);
    let p2 = p1 + c.len() + d.len();
    assert(s[p2 as int] == 125);
}

/// Reads a message at `pos`, as `parse_message` describes.
pub fn read_message(v: &Vec<u8>, pos: usize) -> (r: Option<(Message, usize)>)
    requires
        pos <= v.len(),
    ensures
        r is None ==> parse_message(v@.skip(pos as int)) is None,
        r matches Some(p) ==> parse_message(v@.skip(pos as int)) == Some((p.0@, p.1 as int))
            && pos + p.1 <= v.len() && p.0@.wf(),
{
    let ghost s = v@.skip(pos as int);
    let lit_open = build_msg_open();
    let lit_data = build_msg_data();
    if !starts_with_at(v, pos, &lit_open) {
        return None;
    }
    let p0 = pos + lit_open.len();
    assert(s.skip(lit_msg_open().len() as int) =~= v@.skip(p0 as int));
    let (ph, k1) = match read_bytes(v, p0) {
        Option::Some(p) => p,
        Option::None => {
            return None;
        },
    };
    if ph.len() != 32 {
        return None;
    }
    let p1 = p0 + k1;
    assert(s.skip(lit_msg_open().len() + k1) =~= v@.skip(p1 as int));
    if !starts_with_at(v, p1, &lit_data) {
        return None;
    }
    let p2 = p1 + lit_data.len();
    assert(s.skip(lit_msg_open().len() + k1 + lit_msg_data().len()) =~= v@.skip(p2 as int));
    let (d, k2) = match read_bytes(v, p2) {
        Option::Some(p) => p,
        Option::None => {
            return None;
        },
    };
    let p3 = p2 + k2;
    let ghost q = lit_msg_open().len() + k1 + lit_msg_data().len() + k2;
    if p3 < v.len() && v[p3] == 125 {
        assert(s[q] == v@[p3 as int]);
        let msg = Message { previous_hash: MessageHash::new(ph), data: d };
        Some((msg, p3 + 1 - pos))
    } else {
        assert(q < s.len() ==> s[q] == v@[p3 as int]);
        None
    }
}

/// Appends the serialized form of `m` to `out`.
pub fn write_message(out: &mut Vec<u8>, m: &Message)
    ensures
        final(out)@ == old(out)@ + ser_message(m@),
{
    let lit_open = build_msg_open();
    let lit_data = build_msg_data();
    push_all(out, &lit_open);
    write_bytes(out, &m.previous_hash.bytes);
    push_all(out, &lit_data);
    write_bytes(out, &m.data);
    out.push(125);
    assert(out@ =~= old(out)@ + ser_message(m@));
}

// ---------------------------------------------------------------------------
// signed messages
// ---------------------------------------------------------------------------

/// The message field of a signed message, opening brace included.
pub open spec fn ser_field_message(m: MessageView) -> Seq<u8> {
    lit_sm_open() + ser_message(m)
}

/// The signer field.
pub open spec fn ser_field_id(id: Seq<u8>) -> Seq<u8> {
    lit_sm_id() + ser_str_obj(id, lit_id_open())
}

/// The sequence-number field.
pub open spec fn ser_field_seq(n: u32) -> Seq<u8> {
    lit_sm_seq() + ser_u64(n as u64)
}

/// The signature field.
pub open spec fn ser_field_sig(sig: Seq<u8>) -> Seq<u8> {
    lit_sm_sig() + ser_str_obj(sig, lit_sig_open())
}

/// Serialized form of a signed message.
pub open spec fn ser_signed_message(sm: SignedMessageView) -> Seq<u8> {
    ser_field_message(sm.message) + ser_field_id(sm.id) + ser_field_seq(sm.seq) + ser_field_sig(
        sm.signature,
    ) + seq![125u8]
}

pub open spec fn parse_field_message(s: Seq<u8>) -> Option<(MessageView, int)> {
    if !lit_sm_open().is_prefix_of(s) {
        None
    } else {
        match parse_message(s.skip(lit_sm_open().len() as int)) {
            Option::None => None,
            Option::Some((m, k)) => Some((m, lit_sm_open().len() + k)),
        }
    }
}

pub open spec fn parse_field_id(s: Seq<u8>) -> Option<(Seq<u8>, int)> {
    if !lit_sm_id().is_prefix_of(s) {
        None
    } else {
        match parse_str_obj(s.skip(lit_sm_id().len() as int), lit_id_open()) {
            Option::None => None,
            Option::Some((id, k)) => Some((id, lit_sm_id().len() + k)),
        }
    }
}

pub open spec fn parse_field_seq(s: Seq<u8>) -> Option<(u32, int)> {
    if !lit_sm_seq().is_prefix_of(s) {
        None
    } else {
        match parse_u64(s.skip(lit_sm_seq().len() as int)) {
            Option::None => None,
            Option::Some((n, k)) => if n > u32::MAX {
                None
            } else {
                Some((n as u32, lit_sm_seq().len() + k))
            },
        }
    }
}

pub open spec fn parse_field_sig(s: Seq<u8>) -> Option<(Seq<u8>, int)> {
    if !lit_sm_sig().is_prefix_of(s) {
        None
    } else {
        match parse_str_obj(s.skip(lit_sm_sig().len() as int), lit_sig_open()) {
            Option::None => None,
            Option::Some((sig, k)) => Some((sig, lit_sm_sig().len() + k)),
        }
    }
}

/// Parses a signed message from the front of `s`: its four fields in
/// order, then the closing brace.
pub open spec fn parse_signed_message(s: Seq<u8>) -> Option<(SignedMessageView, int)> {
    match parse_field_message(s) {
        Option::None => None,
        Option::Some((m, p1)) => match parse_field_id(s.skip(p1)) {
            Option::None => None,
            Option::Some((id, k2)) => match parse_field_seq(s.skip(p1 + k2)) {
                Option::None => None,
                Option::Some((n, k3)) => match parse_field_sig(s.skip(p1 + k2 + k3)) {
                    Option::None => None,
                    Option::Some((sig, k4)) => {
                        let p = p1 + k2 + k3 + k4;
                        if p < s.len() && s[p] == 125 {
                            Some(
                                (
                                    SignedMessageView {
                                        message: m,
                                        id: id,
                                        seq: n,
                                        signature: sig,
                                    },
                                    p + 1,
                                ),
                            )
                        } else {
                            None
                        }
                    },
                },
            },
        },
    }
}

proof fn lemma_parse_ser_field_message(m: MessageView, rest: Seq<u8>)
    requires
        m.wf(),
    ensures
        parse_field_message(ser_field_message(m) + rest) == Some(
            (m, ser_field_message(m).len() as int),
        ),
{
    let s = ser_field_message(m) + rest;
    assert(lit_sm_open() =~= s.subrange(0, lit_sm_open().len() as int));
    assert(s.skip(lit_sm_open().len() as int) =~= ser_message(m) + rest);
    lemma_parse_ser_message(m, rest);
}

proof fn lemma_parse_ser_field_id(id: Seq<u8>, rest: Seq<u8>)
    ensures
        parse_field_id(ser_field_id(id) + rest) == Some((id, ser_field_id(id).len() as int)),
{
    let s = ser_field_id(id) + rest;
    assert(lit_sm_id() =~= s.subrange(0, lit_sm_id().len() as int));
    assert(s.skip(lit_sm_id().len() as int) =~= ser_str_obj(id, lit_id_open()) + rest);
    lemma_parse_ser_str_obj(id, lit_id_open(), rest);
}

proof fn lemma_parse_ser_field_seq(n: u32, rest: Seq<u8>)
    requires
        rest.len() == 0 || !crate::json::is_digit(rest[0]),
    ensures
        parse_field_seq(ser_field_seq(n) + rest) == Some((n, ser_field_seq(n).len() as int)),
{
    let s = ser_field_seq(n) + rest;
    assert(lit_sm_seq() =~= s.subrange(0, lit_sm_seq().len() as int));
    assert(s.skip(lit_sm_seq().len() as int) =~= ser_u64(n as u64) + rest);
    crate::json::lemma_parse_ser_u64(n as u64, rest);
}

proof fn lemma_parse_ser_field_sig(sig: Seq<u8>, rest: Seq<u8>)
    ensures
        parse_field_sig(ser_field_sig(sig) + rest) == Some(
            (sig, ser_field_sig(sig).len() as int),
        ),
{
    let s = ser_field_sig(sig) + rest;
    assert(lit_sm_sig() =~= s.subrange(0, lit_sm_sig().len() as int));
    assert(s.skip(lit_sm_sig().len() as int) =~= ser_str_obj(sig, lit_sig_open()) + rest);
    lemma_parse_ser_str_obj(sig, lit_sig_open(), rest);
}

#[verifier::rlimit(100)]
#[verifier::spinoff_prover]
pub proof fn lemma_parse_ser_signed_message(sm: SignedMessageView, rest: Seq<u8>)
    requires
        sm.wf(),
    ensures
        parse_signed_message(ser_signed_message(sm) + rest) == Some(
            (sm, ser_signed_message(sm).len() as int),
        ),
{
    let s = ser_signed_message(sm) + rest;
    let a = ser_field_message(sm.message);
    let b = ser_field_id(sm.id);
    let c = ser_field_seq(sm.seq);
    let d = ser_field_sig(sm.signature);
    assert(s =~= a + (b + c + d + seq![125u8] + rest));
    lemma_parse_ser_field_message(sm.message, b + c + d + seq![125u8] + rest);
    assert(s.skip(a.len() as int) =~= b + (c + d + seq![125u8] + rest));
    lemma_parse_ser_field_id(sm.id, c + d + seq![125u8] + rest);
    assert(s.skip((a.len() + b.len()) as int) =~= c + (d + seq![125u8] + rest));
    assert((d + seq![125u8] + rest)[0] == 44);
    lemma_parse_ser_field_seq(sm.seq, d + seq![125u8] + rest);
    assert(s.skip((a.len() + b.len() + c.len()) as int) =~= d + (seq![125u8] + rest));
    lemma_parse_ser_field_sig(sm.signature, seq![125u8] + rest);
    let p = a.len() + b.len() + c.len() + d.len();
    assert(s[p as int] == 125);
}

/// Reads the message field at `pos`, as `parse_field_message` describes.
fn read_field_message(v: &Vec<u8>, pos: usize) -> (r: Option<(Message, usize)>)
    requires
        pos <= v.len(),
    ensures
        r is None ==> parse_field_message(v@.skip(pos as int)) is None,
        r matches Some(p) ==> parse_field_message(v@.skip(pos as int)) == Some((p.0@, p.1 as int))
            && pos + p.1 <= v.len() && p.0@.wf(),
{
    let ghost s = v@.skip(pos as int);
    let lit = build_sm_open();
    if !starts_with_at(v, pos, &lit) {
        return None;
    }
    assert(s.skip(lit_sm_open().len() as int) =~= v@.skip(pos + lit_sm_open().len()));
    match read_message(v, pos + lit.len()) {
        Option::None => None,
        Option::Some((m, k)) => Some((m, lit.len() + k)),
    }
}

/// Reads the signer field at `pos`, as `parse_field_id` describes.
fn read_field_id(v: &Vec<u8>, pos: usize) -> (r: Option<(Vec<u8>, usize)>)
    requires
        pos <= v.len(),
    ensures
        r is None ==> parse_field_id(v@.skip(pos as int)) is None,
        r matches Some(p) ==> parse_field_id(v@.skip(pos as int)) == Some((p.0@, p.1 as int))
            && pos + p.1 <= v.len(),
{
    let ghost s = v@.skip(pos as int);
    let lit = build_sm_id();
    if !starts_with_at(v, pos, &lit) {
        return None;
    }
    assert(s.skip(lit_sm_id().len() as int) =~= v@.skip(pos + lit_sm_id().len()));
    let lit_id = build_id_open();
    match read_str_obj(v, pos + lit.len(), &lit_id) {
        Option::None => None,
        Option::Some((id, k)) => Some((id, lit.len() + k)),
    }
}

/// Reads the sequence-number field at `pos`, as `parse_field_seq`
/// describes.
fn read_field_seq(v: &Vec<u8>, pos: usize) -> (r: Option<(u32, usize)>)
    requires
        pos <= v.len(),
    ensures
        r is None ==> parse_field_seq(v@.skip(pos as int)) is None,
        r matches Some(p) ==> parse_field_seq(v@.skip(pos as int)) == Some((p.0, p.1 as int))
            && pos + p.1 <= v.len(),
{
    let ghost s = v@.skip(pos as int);
    let lit = build_sm_seq();
    if !starts_with_at(v, pos, &lit) {
        return None;
    }
    assert(s.skip(lit_sm_seq().len() as int) =~= v@.skip(pos + lit_sm_seq().len()));
    match read_u64(v, pos + lit.len()) {
        Option::None => None,
        Option::Some((n, k)) => {
            if n > u32::MAX as u64 {
                None
            } else {
                Some((n as u32, lit.len() + k))
            }
        },
    }
}

/// Reads the signature field at `pos`, as `parse_field_sig` describes.
fn read_field_sig(v: &Vec<u8>, pos: usize) -> (r: Option<(Vec<u8>, usize)>)
    requires
        pos <= v.len(),
    ensures
        r is None ==> parse_field_sig(v@.skip(pos as int)) is None,
        r matches Some(p) ==> parse_field_sig(v@.skip(pos as int)) == Some((p.0@, p.1 as int))
            && pos + p.1 <= v.len(),
{
    let ghost s = v@.skip(pos as int);
    let lit = build_sm_sig();
    if !starts_with_at(v, pos, &lit) {
        return None;
    }
    assert(s.skip(lit_sm_sig().len() as int) =~= v@.skip(pos + lit_sm_sig().len()));
    let lit_sig = build_sig_open();
    match read_str_obj(v, pos + lit.len(), &lit_sig) {
        Option::None => None,
        Option::Some((sig, k)) => Some((sig, lit.len() + k)),
    }
}

/// Reads a signed message at `pos`, as `parse_signed_message` describes.
#[verifier::rlimit(100)]
#[verifier::spinoff_prover]
pub fn read_signed_message(v: &Vec<u8>, pos: usize) -> (r: Option<(SignedMessage, usize)>)
    requires
        pos <= v.len(),
    ensures
        r is None ==> parse_signed_message(v@.skip(pos as int)) is None,
        r matches Some(p) ==> parse_signed_message(v@.skip(pos as int)) == Some(
            (p.0@, p.1 as int),
        ) && pos + p.1 <= v.len() && p.0@.wf(),
{
    let ghost s = v@.skip(pos as int);
    let (m, p1) = match read_field_message(v, pos) {
        Option::Some(p) => p,
        Option::None => {
            return None;
        },
    };
    assert(s.skip(p1 as int) =~= v@.skip(pos + p1));
    let (id, k2) = match read_field_id(v, pos + p1) {
        Option::Some(p) => p,
        Option::None => {
            return None;
        },
    };
    assert(s.skip(p1 + k2) =~= v@.skip(pos + p1 + k2));
    let (n, k3) = match read_field_seq(v, pos + p1 + k2) {
        Option::Some(p) => p,
        Option::None => {
            return None;
        },
    };
    assert(s.skip(p1 + k2 + k3) =~= v@.skip(pos + p1 + k2 + k3));
    let (sig, k4) = match read_field_sig(v, pos + p1 + k2 + k3) {
        Option::Some(p) => p,
        Option::None => {
            return None;
        },
    };
    let p = pos + p1 + k2 + k3 + k4;
    let ghost q = p1 + k2 + k3 + k4 as int;
    if p < v.len() && v[p] == 125 {
        assert(s[q] == v@[p as int]);
        let sm = SignedMessage {
            message: m,
            id: Identity::new(id),
            seq: n,
            signature: Signature::new(sig),
        };
        Some((sm, p + 1 - pos))
    } else {
        assert(q < s.len() ==> s[q] == v@[p as int]);
        None
    }
}

/// Appends the serialized form of `sm` to `out`.
pub fn write_signed_message(out: &mut Vec<u8>, sm: &SignedMessage)
    ensures
        final(out)@ == old(out)@ + ser_signed_message(sm@),
{
    let lit1 = build_sm_open();
    push_all(out, &lit1);
    write_message(out, &sm.message);
    let lit2 = build_sm_id();
    push_all(out, &lit2);
    let lit_id = build_id_open();
    write_str_obj(out, &sm.id.public_key, &lit_id);
    let lit3 = build_sm_seq();
    push_all(out, &lit3);
    write_u64(out, sm.seq as u64);
    let lit4 = build_sm_sig();
    push_all(out, &lit4);
    let lit_sig = build_sig_open();
    write_str_obj(out, &sm.signature.signature, &lit_sig);
    out.push(125);
    assert(out@ =~= old(out)@ + ser_signed_message(sm@));
}

/// The serialized form of `sm`, as a fresh vector.
pub fn encode_signed_message(sm: &SignedMessage) -> (r: Vec<u8>)
    ensures
        r@ == ser_signed_message(sm@),
{
    let mut out: Vec<u8> = Vec::new();
    write_signed_message(&mut out, sm);
    out
}

/// Decodes a byte string that holds exactly one signed message.
pub open spec fn decode_signed_message_spec(s: Seq<u8>) -> Option<SignedMessageView> {
    match parse_signed_message(s) {
        Option::None => None,
        Option::Some((sm, k)) => if k == s.len() {
            Some(sm)
        } else {
            None
        },
    }
}

/// Reads a byte string that holds exactly one signed message.
pub fn decode_signed_message(v: &Vec<u8>) -> (r: Option<SignedMessage>)
    ensures
        r is None ==> decode_signed_message_spec(v@) is None,
        r matches Some(sm) ==> decode_signed_message_spec(v@) == Some(sm@) && sm@.wf(),
{
    assert(v@.skip(0) =~= v@);
    match read_signed_message(v, 0) {
        Option::None => None,
        Option::Some((sm, k)) => {
            if k == v.len() {
                Some(sm)
            } else {
                None
            }
        },
    }
}

/// Round trip: a serialized signed message decodes to itself.
pub proof fn lemma_decode_encode_signed_message(sm: SignedMessageView)
    requires
        sm.wf(),
    ensures
        decode_signed_message_spec(ser_signed_message(sm)) == Some(sm),
{
    lemma_parse_ser_signed_message(sm, Seq::empty());
    assert(ser_signed_message(sm) + Seq::<u8>::empty() =~= ser_signed_message(sm));
}


// ---------------------------------------------------------------------------
// bare values: hashes and numbers
// ---------------------------------------------------------------------------

/// Serialized form of a bare hash value.
pub open spec fn ser_hash(h: Seq<u8>) -> Seq<u8> {
    ser_bytes(h)
}

/// Decodes a byte string that holds exactly one 32-byte hash.
pub open spec fn decode_hash_spec(s: Seq<u8>) -> Option<Seq<u8>> {
    match parse_bytes(s) {
        Option::None => None,
        Option::Some((h, k)) => if k == s.len() && h.len() == 32 {
            Some(h)
        } else {
            None
        },
    }
}

/// The serialized form of `h`, as a fresh vector.
pub fn encode_hash(h: &MessageHash) -> (r: Vec<u8>)
    ensures
        r@ == ser_hash(h@),
{
    let mut out: Vec<u8> = Vec::new();
    write_bytes(&mut out, &h.bytes);
    out
}

/// Reads a byte string that holds exactly one 32-byte hash.
pub fn decode_hash(v: &Vec<u8>) -> (r: Option<MessageHash>)
    ensures
        r is None ==> decode_hash_spec(v@) is None,
        r matches Some(h) ==> decode_hash_spec(v@) == Some(h@) && h.wf(),
{
    assert(v@.skip(0) =~= v@);
    match read_bytes(v, 0) {
        Option::None => None,
        Option::Some((h, k)) => {
            if k == v.len() && h.len() == 32 {
                Some(MessageHash::new(h))
            } else {
                None
            }
        },
    }
}

/// Round trip: a serialized hash decodes to itself.
pub proof fn lemma_decode_encode_hash(h: Seq<u8>)
    requires
        h.len() == 32,
    ensures
        decode_hash_spec(ser_hash(h)) == Some(h),
{
    crate::json::lemma_parse_ser_bytes(h, Seq::empty());
    assert(ser_bytes(h) + Seq::<u8>::empty() =~= ser_bytes(h));
}

/// Decodes a byte string that holds exactly one decimal number.
pub open spec fn decode_u64_spec(s: Seq<u8>) -> Option<u64> {
    match parse_u64(s) {
        Option::None => None,
        Option::Some((n, k)) => if k == s.len() {
            Some(n)
        } else {
            None
        },
    }
}

/// The decimal form of `n`, as a fresh vector.
pub fn encode_u64(n: u64) -> (r: Vec<u8>)
    ensures
        r@ == ser_u64(n),
{
    let mut out: Vec<u8> = Vec::new();
    write_u64(&mut out, n);
    out
}

/// Reads a byte string that holds exactly one decimal number.
pub fn decode_u64(v: &Vec<u8>) -> (r: Option<u64>)
    ensures
        r == decode_u64_spec(v@),
{
    assert(v@.skip(0) =~= v@);
    match read_u64(v, 0) {
        Option::None => None,
        Option::Some((n, k)) => {
            if k == v.len() {
                Some(n)
            } else {
                None
            }
        },
    }
}

/// Round trip: a serialized number decodes to itself.
pub proof fn lemma_decode_encode_u64(n: u64)
    ensures
        decode_u64_spec(ser_u64(n)) == Some(n),
{
    crate::json::lemma_parse_ser_u64(n, Seq::empty());
    assert(ser_u64(n) + Seq::<u8>::empty() =~= ser_u64(n));
}

// ---------------------------------------------------------------------------
// groups
// ---------------------------------------------------------------------------

/// Serialized form of one group record.
pub open spec fn ser_group(g: GroupView) -> Seq<u8> {
    lit_group_open() + ser_str(g.id) + lit_group_ts() + ser_u64(g.timestamp) + seq![125u8]
}

/// Parses one group record from the front of `s`.
pub open spec fn parse_group(s: Seq<u8>) -> Option<(GroupView, int)> {
    if !lit_group_open().is_prefix_of(s) {
        None
    } else {
        match parse_str(s.skip(lit_group_open().len() as int)) {
            Option::None => None,
            Option::Some((id, k1)) => {
                let p1 = lit_group_open().len() + k1;
                if !lit_group_ts().is_prefix_of(s.skip(p1 as int)) {
                    None
                } else {
                    match parse_u64(s.skip((p1 + lit_group_ts().len()) as int)) {
                        Option::None => None,
                        Option::Some((ts, k2)) => {
                            let p2 = p1 + lit_group_ts().len() + k2;
                            if p2 < s.len() && s[p2 as int] == 125 {
                                Some((GroupView { id: id, timestamp: ts }, (p2 + 1) as int))
                            } else {
                                None
                            }
                        },
                    }
                }
            },
        }
    }
}

pub proof fn lemma_parse_ser_group(g: GroupView, rest: Seq<u8>)
    ensures
        parse_group(ser_group(g) + rest) == Some((g, ser_group(g).len() as int)),
{
    let s = ser_group(g) + rest;
    let a = lit_group_open();
    let b = ser_str(g.id);
    let c = lit_group_ts();
    let d = ser_u64(g.timestamp);
    assert(a =~= s.subrange(0, a.len() as int));
    assert(s.skip(a.len() as int) =~= b + (c + d + seq![125u8] + rest));
    crate::json::lemma_parse_ser_str(g.id, c + d + seq![125u8] + rest);
    let p1 = a.len() + b.len();
    assert(s.skip(p1 as int) =~= c + (d + seq![125u8] + rest));
    assert(c =~= s.skip(p1 as int).subrange(0, c.len() as int));
    assert(s.skip((p1 + c.len()) as int) =~= d + (seq![125u8] + rest));
    assert((seq![125u8] + rest)[0] == 125 && !crate::json::is_digit(125));
    crate::json::lemma_parse_ser_u64(g.timestamp, seq![125u8] + rest);
    let p2 = p1 + c.len() + d.len();
    assert(s[p2 as int] == 125);
}

/// Reads one group record at `pos`, as `parse_group` describes.
fn read_group(v: &Vec<u8>, pos: usize) -> (r: Option<(Group, usize)>)
    requires
        pos <= v.len(),
    ensures
        r is None ==> parse_group(v@.skip(pos as int)) is None,
        r matches Some(p) ==> parse_group(v@.skip(pos as int)) == Some((p.0@, p.1 as int))
            && pos + p.1 <= v.len(),
{
    let ghost s = v@.skip(pos as int);
    let lit1 = build_group_open();
    if !starts_with_at(v, pos, &lit1) {
        return None;
    }
    let p0 = pos + lit1.len();
    assert(s.skip(lit_group_open().len() as int) =~= v@.skip(p0 as int));
    let (id, k1) = match read_str(v, p0) {
        Option::Some(p) => p,
        Option::None => {
            return None;
        },
    };
    let p1 = p0 + k1;
    assert(s.skip(lit_group_open().len() + k1) =~= v@.skip(p1 as int));
    let lit2 = build_group_ts();
    if !starts_with_at(v, p1, &lit2) {
        return None;
    }
    let p2 = p1 + lit2.len();
    assert(s.skip(lit_group_open().len() + k1 + lit_group_ts().len()) =~= v@.skip(p2 as int));
    let (ts, k2) = match read_u64(v, p2) {
        Option::Some(p) => p,
        Option::None => {
            return None;
        },
    };
    let p3 = p2 + k2;
    let ghost q = lit_group_open().len() + k1 + lit_group_ts().len() + k2;
    if p3 < v.len() && v[p3] == 125 {
        assert(s[q] == v@[p3 as int]);
        Some((Group { id: id, timestamp: ts }, p3 + 1 - pos))
    } else {
        assert(q < s.len() ==> s[q] == v@[p3 as int]);
        None
    }
}

/// Appends the serialized form of `g` to `out`.
fn write_group(out: &mut Vec<u8>, g: &Group)
    ensures
        final(out)@ == old(out)@ + ser_group(g@),
{
    let lit1 = build_group_open();
    push_all(out, &lit1);
    write_str(out, &g.id);
    let lit2 = build_group_ts();
    push_all(out, &lit2);
    write_u64(out, g.timestamp);
    out.push(125);
    assert(out@ =~= old(out)@ + ser_group(g@));
}

/// The serialized form of one group record, as a fresh vector.
pub fn encode_group(g: &Group) -> (r: Vec<u8>)
    ensures
        r@ == ser_group(g@),
{
    let mut out: Vec<u8> = Vec::new();
    write_group(&mut out, g);
    out
}

/// The mathematical form of a vector of groups.
pub open spec fn groups_view(gs: Seq<Group>) -> Seq<GroupView> {
    Seq::new(gs.len(), |i: int| gs[i]@)
}

/// Comma-separated items of a non-empty group list.
pub open spec fn ser_groups_items(gs: Seq<GroupView>) -> Seq<u8>
    decreases gs.len(),
{
    if gs.len() == 0 {
        Seq::empty()
    } else if gs.len() == 1 {
        ser_group(gs[0])
    } else {
        ser_group(gs[0]) + seq![44u8] + ser_groups_items(gs.skip(1))
    }
}

/// Serialized form of a group list.
pub open spec fn ser_groups(gs: Seq<GroupView>) -> Seq<u8> {
    seq![91u8] + ser_groups_items(gs) + seq![93u8]
}

/// Parses one or more comma-separated group records followed by the
/// closing bracket.
pub open spec fn parse_groups_items(s: Seq<u8>) -> Option<(Seq<GroupView>, int)>
    decreases s.len(),
{
    match parse_group(s) {
        Option::None => None,
        Option::Some((g, k)) => if 1 <= k && k < s.len() && s[k] == 44 {
            match parse_groups_items(s.skip(k + 1)) {
                Option::None => None,
                Option::Some((t, k2)) => Some((seq![g] + t, k + 1 + k2)),
            }
        } else if k < s.len() && s[k] == 93 {
            Some((seq![g], k + 1))
        } else {
            None
        },
    }
}

/// Parses a group list from the front of `s`.
pub open spec fn parse_groups(s: Seq<u8>) -> Option<(Seq<GroupView>, int)> {
    if s.len() < 2 || s[0] != 91 {
        None
    } else if s[1] == 93 {
        Some((Seq::empty(), 2))
    } else {
        match parse_groups_items(s.skip(1)) {
            Option::None => None,
            Option::Some((t, k)) => Some((t, k + 1)),
        }
    }
}

#[verifier::rlimit(100)]
#[verifier::spinoff_prover]
pub proof fn lemma_parse_ser_groups_items(gs: Seq<GroupView>, rest: Seq<u8>)
    requires
        gs.len() >= 1,
    ensures
        parse_groups_items(ser_groups_items(gs) + seq![93u8] + rest) == Some(
            (gs, ser_groups_items(gs).len() + 1 as int),
        ),
    decreases gs.len(),
{
    let s = ser_groups_items(gs) + seq![93u8] + rest;
    let d = ser_group(gs[0]);
    if gs.len() == 1 {
        assert(s =~= d + (seq![93u8] + rest));
        lemma_parse_ser_group(gs[0], seq![93u8] + rest);
        assert(s[d.len() as int] == 93);
        assert(seq![gs[0]] =~= gs);
    } else {
        let tail = ser_groups_items(gs.skip(1));
        assert(s =~= d + (seq![44u8] + tail + seq![93u8] + rest));
        lemma_parse_ser_group(gs[0], seq![44u8] + tail + seq![93u8] + rest);
        assert(s[d.len() as int] == 44);
        assert(s.skip(d.len() + 1 as int) =~= tail + seq![93u8] + rest);
        lemma_parse_ser_groups_items(gs.skip(1), rest);
        assert(seq![gs[0]] + gs.skip(1) =~= gs);
    }
}

/// Parsing the serialization of a group list yields it back.
pub proof fn lemma_parse_ser_groups(gs: Seq<GroupView>, rest: Seq<u8>)
    ensures
        parse_groups(ser_groups(gs) + rest) == Some((gs, ser_groups(gs).len() as int)),
{
    let s = ser_groups(gs) + rest;
    assert(s[0] == 91);
    if gs.len() == 0 {
        assert(s[1] == 93);
        assert(gs =~= Seq::<GroupView>::empty());
    } else {
        assert(s[1] == ser_group(gs[0])[0]);
        assert(s[1] == 123);
        assert(s.skip(1) =~= ser_groups_items(gs) + seq![93u8] + rest);
        lemma_parse_ser_groups_items(gs, rest);
    }
}

/// `ser_groups_items` grows by one serialized record at the back.
proof fn lemma_ser_groups_items_append(gs: Seq<GroupView>, g: GroupView)
    ensures
        ser_groups_items(gs.push(g)) == if gs.len() == 0 {
            ser_group(g)
        } else {
            ser_groups_items(gs) + seq![44u8] + ser_group(g)
        },
    decreases gs.len(),
{
    if gs.len() == 0 {
        assert(gs.push(g) =~= seq![g]);
    } else {
        assert(gs.push(g)[0] == gs[0]);
        assert(gs.push(g).skip(1) =~= gs.skip(1).push(g));
        lemma_ser_groups_items_append(gs.skip(1), g);
        if gs.len() == 1 {
            assert(ser_groups_items(gs) == ser_group(gs[0]));
            assert(ser_groups_items(gs.push(g)) =~= ser_groups_items(gs) + seq![44u8] + ser_group(
                g,
            ));
        } else {
            assert(ser_groups_items(gs.push(g)) =~= ser_groups_items(gs) + seq![44u8] + ser_group(
                g,
            ));
        }
    }
}

/// The serialized form of a group list, as a fresh vector.
pub fn encode_groups(gs: &Vec<Group>) -> (r: Vec<u8>)
    ensures
        r@ == ser_groups(groups_view(gs@)),
{
    let mut out: Vec<u8> = Vec::new();
    out.push(91);
    let mut i: usize = 0;
    while i < gs.len()
        invariant
            i <= gs.len(),
            out@ =~= seq![91u8] + ser_groups_items(groups_view(gs@).take(i as int)),
        decreases gs.len() - i,
    {
        proof {
            assert(groups_view(gs@).take(i + 1) =~= groups_view(gs@).take(i as int).push(
                gs@[i as int]@,
            ));
            lemma_ser_groups_items_append(groups_view(gs@).take(i as int), gs@[i as int]@);
        }
        if i > 0 {
            out.push(44);
        } else {
            assert(groups_view(gs@).take(0int).len() == 0);
        }
        write_group(&mut out, &gs[i]);
        assert(out@ =~= seq![91u8] + ser_groups_items(groups_view(gs@).take(i + 1)));
        i = i + 1;
    }
    assert(groups_view(gs@).take(gs@.len() as int) =~= groups_view(gs@));
    out.push(93);
    assert(out@ =~= ser_groups(groups_view(gs@)));
    out
}

/// Reads the items of a group list, as `parse_groups_items` describes.
fn read_groups_items(v: &Vec<u8>, pos: usize) -> (r: Option<(Vec<Group>, usize)>)
    requires
        pos <= v.len(),
    ensures
        r is None ==> parse_groups_items(v@.skip(pos as int)) is None,
        r matches Some(p) ==> parse_groups_items(v@.skip(pos as int)) == Some(
            (groups_view(p.0@), p.1 as int),
        ) && pos + p.1 <= v.len() && p.1 >= 1,
    decreases v.len() - pos,
{
    let ghost s = v@.skip(pos as int);
    let (g, k) = match read_group(v, pos) {
        Option::Some(p) => p,
        Option::None => {
            return None;
        },
    };
    if pos + k < v.len() && v[pos + k] == 44 {
        assert(s[k as int] == v@[pos + k]);
        assert(s.skip(k + 1) =~= v@.skip(pos + k + 1));
        match read_groups_items(v, pos + k + 1) {
            Option::None => None,
            Option::Some((t, k2)) => {
                let ghost gv = g@;
                let ghost tv = t@;
                let mut outv = t;
                outv.insert(0, g);
                proof {
                    assert(groups_view(outv@) =~= seq![gv] + groups_view(tv)) by {
                        assert(outv@ == tv.insert(0, outv@[0]));
                        assert forall|x: int| 0 <= x < outv@.len() implies groups_view(outv@)[x]
                            == (seq![gv] + groups_view(tv))[x] by {
                            if x > 0 {
                                assert(outv@[x] == tv[x - 1]);
                            }
                        }
                    }
                }
                Some((outv, k + 1 + k2))
            },
        }
    } else if pos + k < v.len() && v[pos + k] == 93 {
        assert(s[k as int] == v@[pos + k]);
        let mut outv: Vec<Group> = Vec::new();
        outv.push(g);
        assert(groups_view(outv@) =~= seq![g@]);
        Some((outv, k + 1))
    } else {
        assert(k < s.len() ==> s[k as int] == v@[pos + k]);
        None
    }
}

/// Decodes a byte string that holds exactly one group list.
pub open spec fn decode_groups_spec(s: Seq<u8>) -> Option<Seq<GroupView>> {
    match parse_groups(s) {
        Option::None => None,
        Option::Some((gs, k)) => if k == s.len() {
            Some(gs)
        } else {
            None
        },
    }
}

/// Reads a byte string that holds exactly one group list.
pub fn decode_groups(v: &Vec<u8>) -> (r: Option<Vec<Group>>)
    ensures
        r is None ==> decode_groups_spec(v@) is None,
        r matches Some(gs) ==> decode_groups_spec(v@) == Some(groups_view(gs@)),
{
    let ghost s = v@;
    assert(v@.skip(0) =~= v@);
    if v.len() < 2 || v[0] != 91 {
        return None;
    }
    if v[1] == 93 {
        if v.len() == 2 {
            let outv: Vec<Group> = Vec::new();
            assert(groups_view(outv@) =~= Seq::<GroupView>::empty());
            return Some(outv);
        } else {
            return None;
        }
    }
    assert(s.skip(1) =~= v@.skip(1int));
    match read_groups_items(v, 1) {
        Option::None => None,
        Option::Some((gs, k)) => {
            if k + 1 == v.len() {
                Some(gs)
            } else {
                None
            }
        },
    }
}

/// Round trip: a serialized group list decodes to itself.
pub proof fn lemma_decode_encode_groups(gs: Seq<GroupView>)
    ensures
        decode_groups_spec(ser_groups(gs)) == Some(gs),
{
    lemma_parse_ser_groups(gs, Seq::empty());
    assert(ser_groups(gs) + Seq::<u8>::empty() =~= ser_groups(gs));
}


// ---------------------------------------------------------------------------
// accounts
// ---------------------------------------------------------------------------

/// Serialized form of one account: a pair of identity and secret.
pub open spec fn ser_account(id: Seq<u8>, sk: Seq<u8>) -> Seq<u8> {
    seq![91u8] + ser_str_obj(id, lit_id_open()) + seq![44u8] + ser_str_obj(sk, lit_secret_open())
        + seq![93u8]
}

/// Parses one account pair from the front of `s`.
pub open spec fn parse_account(s: Seq<u8>) -> Option<((Seq<u8>, Seq<u8>), int)> {
    if s.len() == 0 || s[0] != 91 {
        None
    } else {
        match parse_str_obj(s.skip(1), lit_id_open()) {
            Option::None => None,
            Option::Some((id, k1)) => {
                let p1 = 1 + k1;
                if p1 < s.len() && s[p1] == 44 {
                    match parse_str_obj(s.skip(p1 + 1), lit_secret_open()) {
                        Option::None => None,
                        Option::Some((sk, k2)) => {
                            let p2 = p1 + 1 + k2;
                            if p2 < s.len() && s[p2] == 93 {
                                Some(((id, sk), p2 + 1))
                            } else {
                                None
                            }
                        },
                    }
                } else {
                    None
                }
            },
        }
    }
}

pub proof fn lemma_parse_ser_account(id: Seq<u8>, sk: Seq<u8>, rest: Seq<u8>)
    ensures
        parse_account(ser_account(id, sk) + rest) == Some(
            ((id, sk), ser_account(id, sk).len() as int),
        ),
{
    let s = ser_account(id, sk) + rest;
    let b = ser_str_obj(id, lit_id_open());
    let d = ser_str_obj(sk, lit_secret_open());
    assert(s[0] == 91);
    assert(s.skip(1) =~= b + (seq![44u8] + d + seq![93u8] + rest));
    lemma_parse_ser_str_obj(id, lit_id_open(), seq![44u8] + d + seq![93u8] + rest);
    let p1 = 1 + b.len();
    assert(s[p1 as int] == 44);
    assert(s.skip(p1 + 1 as int) =~= d + (seq![93u8] + rest));
    lemma_parse_ser_str_obj(sk, lit_secret_open(), seq![93u8] + rest);
    let p2 = p1 + 1 + d.len();
    assert(s[p2 as int] == 93);
}

/// Reads one account pair at `pos`, as `parse_account` describes.
fn read_account(v: &Vec<u8>, pos: usize) -> (r: Option<((Identity, Secret), usize)>)
    requires
        pos <= v.len(),
    ensures
        r is None ==> parse_account(v@.skip(pos as int)) is None,
        r matches Some(p) ==> parse_account(v@.skip(pos as int)) == Some(
            ((p.0.0@, p.0.1@), p.1 as int),
        ) && pos + p.1 <= v.len(),
{
    let ghost s = v@.skip(pos as int);
    if pos == v.len() {
        return None;
    }
    assert(s[0] == v@[pos as int]);
    if v[pos] != 91 {
        return None;
    }
    assert(s.skip(1) =~= v@.skip(pos + 1));
    let lit_id = build_id_open();
    let (id, k1) = match read_str_obj(v, pos + 1, &lit_id) {
        Option::Some(p) => p,
        Option::None => {
            return None;
        },
    };
    let p1 = pos + 1 + k1;
    if p1 < v.len() && v[p1] == 44 {
        assert(s[1 + k1] == v@[p1 as int]);
        assert(s.skip(1 + k1 + 1) =~= v@.skip(p1 + 1));
        let lit_sk = build_secret_open();
        let (sk, k2) = match read_str_obj(v, p1 + 1, &lit_sk) {
            Option::Some(p) => p,
            Option::None => {
                return None;
            },
        };
        let p2 = p1 + 1 + k2;
        let ghost q = 1 + k1 + 1 + k2 as int;
        if p2 < v.len() && v[p2] == 93 {
            assert(s[q] == v@[p2 as int]);
            Some(((Identity::new(id), Secret::new(sk)), p2 + 1 - pos))
        } else {
            assert(q < s.len() ==> s[q] == v@[p2 as int]);
            None
        }
    } else {
        assert(1 + k1 < s.len() ==> s[1 + k1] == v@[p1 as int]);
        None
    }
}

/// Appends the serialized form of one account to `out`.
fn write_account(out: &mut Vec<u8>, id: &Identity, sk: &Secret)
    ensures
        final(out)@ == old(out)@ + ser_account(id@, sk@),
{
    out.push(91);
    let lit_id = build_id_open();
    write_str_obj(out, &id.public_key, &lit_id);
    out.push(44);
    let lit_sk = build_secret_open();
    let sk_text = sk.to_text();
    write_str_obj(out, &sk_text, &lit_sk);
    out.push(93);
    assert(out@ =~= old(out)@ + ser_account(id@, sk@));
}

/// The mathematical form of a vector of accounts.
pub open spec fn accounts_view(l: Seq<(Identity, Secret)>) -> Seq<(Seq<u8>, Seq<u8>)> {
    Seq::new(l.len(), |i: int| (l[i].0@, l[i].1@))
}

/// Comma-separated items of a non-empty account list.
pub open spec fn ser_accounts_items(l: Seq<(Seq<u8>, Seq<u8>)>) -> Seq<u8>
    decreases l.len(),
{
    if l.len() == 0 {
        Seq::empty()
    } else if l.len() == 1 {
        ser_account(l[0].0, l[0].1)
    } else {
        ser_account(l[0].0, l[0].1) + seq![44u8] + ser_accounts_items(l.skip(1))
    }
}

/// Serialized form of an account list.
pub open spec fn ser_accounts(l: Seq<(Seq<u8>, Seq<u8>)>) -> Seq<u8> {
    seq![91u8] + ser_accounts_items(l) + seq![93u8]
}

/// Parses one or more comma-separated account pairs followed by the
/// closing bracket.
pub open spec fn parse_accounts_items(s: Seq<u8>) -> Option<(Seq<(Seq<u8>, Seq<u8>)>, int)>
    decreases s.len(),
{
    match parse_account(s) {
        Option::None => None,
        Option::Some((a, k)) => if 1 <= k && k < s.len() && s[k] == 44 {
            match parse_accounts_items(s.skip(k + 1)) {
                Option::None => None,
                Option::Some((t, k2)) => Some((seq![a] + t, k + 1 + k2)),
            }
        } else if k < s.len() && s[k] == 93 {
            Some((seq![a], k + 1))
        } else {
            None
        },
    }
}

/// Parses an account list from the front of `s`.
pub open spec fn parse_accounts(s: Seq<u8>) -> Option<(Seq<(Seq<u8>, Seq<u8>)>, int)> {
    if s.len() < 2 || s[0] != 91 {
        None
    } else if s[1] == 93 {
        Some((Seq::empty(), 2))
    } else {
        match parse_accounts_items(s.skip(1)) {
            Option::None => None,
            Option::Some((t, k)) => Some((t, k + 1)),
        }
    }
}

#[verifier::rlimit(100)]
#[verifier::spinoff_prover]
pub proof fn lemma_parse_ser_accounts_items(l: Seq<(Seq<u8>, Seq<u8>)>, rest: Seq<u8>)
    requires
        l.len() >= 1,
    ensures
        parse_accounts_items(ser_accounts_items(l) + seq![93u8] + rest) == Some(
            (l, ser_accounts_items(l).len() + 1 as int),
        ),
    decreases l.len(),
{
    let s = ser_accounts_items(l) + seq![93u8] + rest;
    let d = ser_account(l[0].0, l[0].1);
    if l.len() == 1 {
        assert(s =~= d + (seq![93u8] + rest));
        lemma_parse_ser_account(l[0].0, l[0].1, seq![93u8] + rest);
        assert(s[d.len() as int] == 93);
        assert(seq![l[0]] =~= l);
        assert(seq![(l[0].0, l[0].1)] =~= l);
    } else {
        let tail = ser_accounts_items(l.skip(1));
        assert(s =~= d + (seq![44u8] + tail + seq![93u8] + rest));
        lemma_parse_ser_account(l[0].0, l[0].1, seq![44u8] + tail + seq![93u8] + rest);
        assert(s[d.len() as int] == 44);
        assert(s.skip(d.len() + 1 as int) =~= tail + seq![93u8] + rest);
        lemma_parse_ser_accounts_items(l.skip(1), rest);
        assert(seq![(l[0].0, l[0].1)] + l.skip(1) =~= l);
    }
}

/// Parsing the serialization of an account list yields it back.
pub proof fn lemma_parse_ser_accounts(l: Seq<(Seq<u8>, Seq<u8>)>, rest: Seq<u8>)
    ensures
        parse_accounts(ser_accounts(l) + rest) == Some((l, ser_accounts(l).len() as int)),
{
    let s = ser_accounts(l) + rest;
    assert(s[0] == 91);
    if l.len() == 0 {
        assert(s[1] == 93);
        assert(l =~= Seq::<(Seq<u8>, Seq<u8>)>::empty());
    } else {
        assert(s[1] == ser_account(l[0].0, l[0].1)[0]);
        assert(s[1] == 91);
        assert(s.skip(1) =~= ser_accounts_items(l) + seq![93u8] + rest);
        lemma_parse_ser_accounts_items(l, rest);
    }
}

/// `ser_accounts_items` grows by one serialized pair at the back.
proof fn lemma_ser_accounts_items_append(l: Seq<(Seq<u8>, Seq<u8>)>, a: (Seq<u8>, Seq<u8>))
    ensures
        ser_accounts_items(l.push(a)) == if l.len() == 0 {
            ser_account(a.0, a.1)
        } else {
            ser_accounts_items(l) + seq![44u8] + ser_account(a.0, a.1)
        },
    decreases l.len(),
{
    if l.len() == 0 {
        assert(l.push(a) =~= seq![a]);
    } else {
        assert(l.push(a)[0] == l[0]);
        assert(l.push(a).skip(1) =~= l.skip(1).push(a));
        lemma_ser_accounts_items_append(l.skip(1), a);
        if l.len() == 1 {
            assert(ser_accounts_items(l) == ser_account(l[0].0, l[0].1));
            assert(ser_accounts_items(l.push(a)) =~= ser_accounts_items(l) + seq![44u8]
                + ser_account(a.0, a.1));
        } else {
            assert(ser_accounts_items(l.push(a)) =~= ser_accounts_items(l) + seq![44u8]
                + ser_account(a.0, a.1));
        }
    }
}

/// The serialized form of an account list, as a fresh vector.
pub fn encode_accounts(l: &Vec<(Identity, Secret)>) -> (r: Vec<u8>)
    ensures
        r@ == ser_accounts(accounts_view(l@)),
{
    let mut out: Vec<u8> = Vec::new();
    out.push(91);
    let mut i: usize = 0;
    while i < l.len()
        invariant
            i <= l.len(),
            out@ =~= seq![91u8] + ser_accounts_items(accounts_view(l@).take(i as int)),
        decreases l.len() - i,
    {
        proof {
            assert(accounts_view(l@).take(i + 1) =~= accounts_view(l@).take(i as int).push(
                (l@[i as int].0@, l@[i as int].1@),
            ));
            lemma_ser_accounts_items_append(
                accounts_view(l@).take(i as int),
                (l@[i as int].0@, l@[i as int].1@),
            );
        }
        if i > 0 {
            out.push(44);
        } else {
            assert(accounts_view(l@).take(0int).len() == 0);
        }
        write_account(&mut out, &l[i].0, &l[i].1);
        assert(out@ =~= seq![91u8] + ser_accounts_items(accounts_view(l@).take(i + 1)));
        i = i + 1;
    }
    assert(accounts_view(l@).take(l@.len() as int) =~= accounts_view(l@));
    out.push(93);
    assert(out@ =~= ser_accounts(accounts_view(l@)));
    out
}

/// Reads the items of an account list, as `parse_accounts_items` describes.
fn read_accounts_items(v: &Vec<u8>, pos: usize) -> (r: Option<(Vec<(Identity, Secret)>, usize)>)
    requires
        pos <= v.len(),
    ensures
        r is None ==> parse_accounts_items(v@.skip(pos as int)) is None,
        r matches Some(p) ==> parse_accounts_items(v@.skip(pos as int)) == Some(
            (accounts_view(p.0@), p.1 as int),
        ) && pos + p.1 <= v.len() && p.1 >= 1,
    decreases v.len() - pos,
{
    let ghost s = v@.skip(pos as int);
    let (a, k) = match read_account(v, pos) {
        Option::Some(p) => p,
        Option::None => {
            return None;
        },
    };
    if pos + k < v.len() && v[pos + k] == 44 {
        assert(s[k as int] == v@[pos + k]);
        assert(s.skip(k + 1) =~= v@.skip(pos + k + 1));
        match read_accounts_items(v, pos + k + 1) {
            Option::None => None,
            Option::Some((t, k2)) => {
                let ghost av = (a.0@, a.1@);
                let ghost tv = t@;
                let mut outv = t;
                outv.insert(0, a);
                proof {
                    assert(accounts_view(outv@) =~= seq![av] + accounts_view(tv)) by {
                        assert(outv@ == tv.insert(0, outv@[0]));
                        assert forall|x: int| 0 <= x < outv@.len() implies accounts_view(outv@)[x]
                            == (seq![av] + accounts_view(tv))[x] by {
                            if x > 0 {
                                assert(outv@[x] == tv[x - 1]);
                            }
                        }
                    }
                }
                Some((outv, k + 1 + k2))
            },
        }
    } else if pos + k < v.len() && v[pos + k] == 93 {
        assert(s[k as int] == v@[pos + k]);
        let ghost av = (a.0@, a.1@);
        let mut outv: Vec<(Identity, Secret)> = Vec::new();
        outv.push(a);
        assert(accounts_view(outv@) =~= seq![av]);
        Some((outv, k + 1))
    } else {
        assert(k < s.len() ==> s[k as int] == v@[pos + k]);
        None
    }
}

/// Decodes a byte string that holds exactly one account list.
pub open spec fn decode_accounts_spec(s: Seq<u8>) -> Option<Seq<(Seq<u8>, Seq<u8>)>> {
    match parse_accounts(s) {
        Option::None => None,
        Option::Some((l, k)) => if k == s.len() {
            Some(l)
        } else {
            None
        },
    }
}

/// Reads a byte string that holds exactly one account list.
pub fn decode_accounts(v: &Vec<u8>) -> (r: Option<Vec<(Identity, Secret)>>)
    ensures
        r is None ==> decode_accounts_spec(v@) is None,
        r matches Some(l) ==> decode_accounts_spec(v@) == Some(accounts_view(l@)),
{
    let ghost s = v@;
    assert(v@.skip(0) =~= v@);
    if v.len() < 2 || v[0] != 91 {
        return None;
    }
    if v[1] == 93 {
        if v.len() == 2 {
            let outv: Vec<(Identity, Secret)> = Vec::new();
            assert(accounts_view(outv@) =~= Seq::<(Seq<u8>, Seq<u8>)>::empty());
            return Some(outv);
        } else {
            return None;
        }
    }
    assert(s.skip(1) =~= v@.skip(1int));
    match read_accounts_items(v, 1) {
        Option::None => None,
        Option::Some((l, k)) => {
            if k + 1 == v.len() {
                Some(l)
            } else {
                None
            }
        },
    }
}

/// Round trip: a serialized account list decodes to itself.
pub proof fn lemma_decode_encode_accounts(l: Seq<(Seq<u8>, Seq<u8>)>)
    ensures
        decode_accounts_spec(ser_accounts(l)) == Some(l),
{
    lemma_parse_ser_accounts(l, Seq::empty());
    assert(ser_accounts(l) + Seq::<u8>::empty() =~= ser_accounts(l));
}

} // verus!
