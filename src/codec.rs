//! The record format of the command log.
//!
//! A record is a tag byte followed by one length-prefixed field (`Remove`)
//! or two (`Put`). A field is the little-endian `u64` byte length of a
//! string's UTF-8 encoding, then that encoding.
use vstd::bytes::*;
use vstd::prelude::*;
use vstd::slice::*;
use vstd::utf8::*;

verus! {

broadcast use group_utf8_lib;

/// Tag byte of a `Put` record.
pub const PUT_TAG: u8 = 1;

/// Tag byte of a `Remove` record.
pub const REMOVE_TAG: u8 = 2;

/// A mutation, over the characters of its key and value.
pub enum Op {
    Put(Seq<char>, Seq<char>),
    Remove(Seq<char>),
}

/// A durable mutation, as it is appended to the log.
pub enum Command {
    Put { key: String, value: String },
    Remove { key: String },
}

impl View for Command {
    type V = Op;

    open spec fn view(&self) -> Op {
        match self {
            Command::Put { key, value } => Op::Put(key@, value@),
            Command::Remove { key } => Op::Remove(key@),
        }
    }
}

/// A string's field: its encoded length, then its UTF-8 encoding.
pub open spec fn field_bytes(s: Seq<char>) -> Seq<u8> {
    spec_u64_to_le_bytes(encode_utf8(s).len() as u64) + encode_utf8(s)
}

/// Whether the UTF-8 encoding of `s` is short enough for its length to be a `u64`.
pub open spec fn field_fits(s: Seq<char>) -> bool {
    encode_utf8(s).len() <= u64::MAX
}

pub open spec fn op_fits(op: Op) -> bool {
    match op {
        Op::Put(k, v) => field_fits(k) && field_fits(v),
        Op::Remove(k) => field_fits(k),
    }
}

/// The bytes of the record of `op`.
pub open spec fn encode_op(op: Op) -> Seq<u8> {
    match op {
        Op::Put(k, v) => seq![PUT_TAG] + field_bytes(k) + field_bytes(v),
        Op::Remove(k) => seq![REMOVE_TAG] + field_bytes(k),
    }
}

/// The string whose field starts at `p` in `b`, and the position just past
/// that field; `None` where no well-formed field starts there.
pub open spec fn decode_field(b: Seq<u8>, p: int) -> Option<(Seq<char>, int)> {
    if 0 <= p && p + 8 <= b.len() {
        let n = spec_u64_from_le_bytes(b.subrange(p, p + 8)) as int;
        if p + 8 + n <= b.len() && valid_utf8(b.subrange(p + 8, p + 8 + n)) {
            Some((decode_utf8(b.subrange(p + 8, p + 8 + n)), p + 8 + n))
        } else {
            None
        }
    } else {
        None
    }
}

/// The mutation whose record starts `b`, and that record's length; `None`
/// where `b` does not start with a well-formed record.
pub open spec fn decode_op(b: Seq<u8>) -> Option<(Op, int)> {
    if b.len() == 0 {
        None
    } else if b[0] == PUT_TAG {
        match decode_field(b, 1) {
            Some((k, p)) => match decode_field(b, p) {
                Some((v, q)) => Some((Op::Put(k, v), q)),
                None => None,
            },
            None => None,
        }
    } else if b[0] == REMOVE_TAG {
        match decode_field(b, 1) {
            Some((k, p)) => Some((Op::Remove(k), p)),
            None => None,
        }
    } else {
        None
    }
}

/// The length of a record: the tag, one length per field, and the fields' bytes.
pub proof fn lemma_encode_len(op: Op)
    ensures
        encode_op(op).len() == match op {
            Op::Put(k, v) => 17 + encode_utf8(k).len() + encode_utf8(v).len(),
            Op::Remove(k) => 9 + encode_utf8(k).len(),
        },
{
    lemma_auto_spec_u64_to_from_le_bytes();
}

proof fn lemma_field_round_trip(s: Seq<char>, pre: Seq<u8>, post: Seq<u8>)
    requires
        field_fits(s),
    ensures
        field_bytes(s).len() == 8 + encode_utf8(s).len(),
        decode_field(pre + field_bytes(s) + post, pre.len() as int) == Some(
            (s, (pre.len() + field_bytes(s).len()) as int),
        ),
{
    lemma_auto_spec_u64_to_from_le_bytes();
    let e = encode_utf8(s);
    let lb = spec_u64_to_le_bytes(e.len() as u64);
    let b = pre + field_bytes(s) + post;
    let p = pre.len() as int;
    assert(b.subrange(p, p + 8) =~= lb);
    assert(b.subrange(p + 8, p + 8 + e.len()) =~= e);
}

proof fn lemma_field_canonical(b: Seq<u8>, p: int)
    requires
        decode_field(b, p) is Some,
    ensures
        ({
            let (s, q) = decode_field(b, p)->Some_0;
            &&& field_fits(s)
            &&& q == p + field_bytes(s).len()
            &&& q <= b.len()
            &&& b.subrange(p, q) == field_bytes(s)
        }),
{
    lemma_auto_spec_u64_to_from_le_bytes();
    let (s, q) = decode_field(b, p)->Some_0;
    let n = spec_u64_from_le_bytes(b.subrange(p, p + 8));
    let raw = b.subrange(p + 8, q);
    assert(encode_utf8(s) == raw);
    assert(b.subrange(p, q) =~= b.subrange(p, p + 8) + raw);
}

proof fn lemma_field_extend(b: Seq<u8>, c: Seq<u8>, p: int)
    requires
        decode_field(b, p) is Some,
    ensures
        decode_field(b + c, p) == decode_field(b, p),
{
    let n = spec_u64_from_le_bytes(b.subrange(p, p + 8)) as int;
    assert((b + c).subrange(p, p + 8) =~= b.subrange(p, p + 8));
    assert((b + c).subrange(p + 8, p + 8 + n) =~= b.subrange(p + 8, p + 8 + n));
}

/// Decoding the record of `op` gives back `op` and the record's length,
/// whatever follows the record.
pub proof fn lemma_decode_encode(op: Op, rest: Seq<u8>)
    requires
        op_fits(op),
    ensures
        decode_op(encode_op(op) + rest) == Some((op, encode_op(op).len() as int)),
        encode_op(op).len() > 0,
{
    match op {
        Op::Put(k, v) => {
            let b = encode_op(op) + rest;
            lemma_field_round_trip(k, seq![PUT_TAG], field_bytes(v) + rest);
            assert(b =~= seq![PUT_TAG] + field_bytes(k) + (field_bytes(v) + rest));
            lemma_field_round_trip(v, seq![PUT_TAG] + field_bytes(k), rest);
        },
        Op::Remove(k) => {
            lemma_field_round_trip(k, seq![REMOVE_TAG], rest);
        },
    }
}

/// A record that decodes is the encoding of what it decodes to.
pub proof fn lemma_decode_canonical(b: Seq<u8>)
    requires
        decode_op(b) is Some,
    ensures
        ({
            let (op, n) = decode_op(b)->Some_0;
            &&& op_fits(op)
            &&& 0 < n <= b.len()
            &&& n == encode_op(op).len()
            &&& b.subrange(0, n) == encode_op(op)
        }),
{
    if b[0] == PUT_TAG {
        lemma_field_canonical(b, 1);
        let (k, p) = decode_field(b, 1)->Some_0;
        lemma_field_canonical(b, p);
        let (v, q) = decode_field(b, p)->Some_0;
        assert(b.subrange(0, q) =~= b.subrange(0, 1) + b.subrange(1, p) + b.subrange(p, q));
    } else {
        lemma_field_canonical(b, 1);
        let (k, p) = decode_field(b, 1)->Some_0;
        assert(b.subrange(0, p) =~= b.subrange(0, 1) + b.subrange(1, p));
    }
}

/// What a record decodes to does not depend on the bytes after it.
pub proof fn lemma_decode_extend(b: Seq<u8>, c: Seq<u8>)
    requires
        decode_op(b) is Some,
    ensures
        decode_op(b + c) == decode_op(b),
{
    lemma_decode_canonical(b);
    let (op, n) = decode_op(b)->Some_0;
    assert(b + c =~= encode_op(op) + (b.subrange(n, b.len() as int) + c)) by {
        assert(b =~= b.subrange(0, n) + b.subrange(n, b.len() as int));
    }
    lemma_decode_encode(op, b.subrange(n, b.len() as int) + c);
}

/// Relies on `String::from_utf8`: it accepts exactly the well-formed UTF-8
/// byte sequences and keeps the characters that they encode.
#[verifier::external_body]
fn string_from_utf8(bytes: Vec<u8>) -> (r: Option<String>)
    ensures
        r is Some <==> valid_utf8(bytes@),
        r matches Some(s) ==> s@ == decode_utf8(bytes@),
{
    String::from_utf8(bytes).ok()
}

/// Decodes UTF-8 bytes into a string; `None` where they are not UTF-8.
pub fn utf8_to_string(bytes: Vec<u8>) -> (r: Option<String>)
    ensures
        r is Some <==> valid_utf8(bytes@),
        r matches Some(s) ==> s@ == decode_utf8(bytes@) && encode_utf8(s@) == bytes@,
{
    string_from_utf8(bytes)
}

fn append_bytes(out: &mut Vec<u8>, b: &[u8])
    ensures
        final(out)@ == old(out)@ + b@,
{
    let mut i: usize = 0;
    while i < b.len()
        invariant
            i <= b@.len(),
            out@ == old(out)@ + b@.subrange(0, i as int),
        decreases b@.len() - i,
    {
        out.push(b[i]);
        i = i + 1;
        assert(b@.subrange(0, i as int) =~= b@.subrange(0, i - 1) + seq![b@[i - 1]]);
    }
    assert(b@.subrange(0, b@.len() as int) =~= b@);
}

fn append_field(out: &mut Vec<u8>, s: &str)
    ensures
        final(out)@ == old(out)@ + field_bytes(s@),
        field_fits(s@),
{
    let raw = s.as_bytes();
    let len = u64_to_le_bytes(raw.len() as u64);
    append_bytes(out, len.as_slice());
    append_bytes(out, raw);
    assert(final(out)@ =~= old(out)@ + field_bytes(s@));
}

/// The record of `cmd`.
pub fn encode_command(cmd: &Command) -> (r: Vec<u8>)
    ensures
        r@ == encode_op(cmd@),
        op_fits(cmd@),
{
    let mut out: Vec<u8> = Vec::new();
    match cmd {
        Command::Put { key, value } => {
            out.push(PUT_TAG);
            append_field(&mut out, key.as_str());
            append_field(&mut out, value.as_str());
        },
        Command::Remove { key } => {
            out.push(REMOVE_TAG);
            append_field(&mut out, key.as_str());
        },
    }
    assert(out@ =~= encode_op(cmd@));
    out
}

fn decode_field_at(b: &[u8], p: usize) -> (r: Option<(String, usize)>)
    ensures
        match decode_field(b@, p as int) {
            Some((s, q)) => r matches Some((t, e)) && t@ == s && e == q,
            None => r is None,
        },
{
    if b.len() < 8 || p > b.len() - 8 {
        return None;
    }
    let n = u64_from_le_bytes(slice_subrange(b, p, p + 8));
    let start = p + 8;
    if n > (b.len() - start) as u64 {
        return None;
    }
    let end = start + n as usize;
    let raw = slice_to_vec(slice_subrange(b, start, end));
    match string_from_utf8(raw) {
        Some(s) => Some((s, end)),
        None => None,
    }
}

/// The command whose record starts `b`, and that record's length; `None`
/// where `b` does not start with a well-formed record.
pub fn decode_command(b: &[u8]) -> (r: Option<(Command, usize)>)
    ensures
        match decode_op(b@) {
            Some((op, n)) => r matches Some((c, m)) && c@ == op && m == n,
            None => r is None,
        },
{
    if b.len() == 0 {
        return None;
    }
    if b[0] == PUT_TAG {
        match decode_field_at(b, 1) {
            Some((key, p)) => match decode_field_at(b, p) {
                Some((value, q)) => Some((Command::Put { key, value }, q)),
                None => None,
            },
            None => None,
        }
    } else if b[0] == REMOVE_TAG {
        match decode_field_at(b, 1) {
            Some((key, p)) => Some((Command::Remove { key }, p)),
            None => None,
        }
    } else {
        None
    }
}

} // verus!
