//! The binary codec: canonical, compact encoding of a payload envelope
//! to bytes and exact decoding back.
//!
//! The wire form is length-prefixed binary: integers as eight
//! little-endian bytes, booleans and union tags as one byte, byte
//! strings and sequences prefixed with their length, text as its UTF-8
//! bytes. A given value always encodes to the same bytes; decoding
//! accepts exactly the encodings and consumes the whole input, failing
//! with [`DecodeError`] on anything empty, truncated, or malformed.

use vstd::prelude::*;
use vstd::slice::slice_to_vec;
use vstd::string::StrSliceExecFns;
use vstd::utf8::encode_utf8;
use vstd::utf8::decode_utf8;
use vstd::utf8::valid_utf8;
use vstd::utf8::encode_utf8_valid_utf8;
use vstd::utf8::encode_utf8_decode_utf8;
use crate::data::clone_bytes;
use crate::data::clone_object;
use crate::data::deep_view_seq;
use crate::data::GasCostSummary;
use crate::data::MoveCallRec;
use crate::data::MoveCallV;
use crate::data::NodeStreamPayload;
use crate::data::NodeStreamPayloadV;
use crate::data::Object;
use crate::data::ObjectChangeStatus;
use crate::data::ObjectRef;
use crate::data::ObjectV;
use crate::data::OwnedRef;
use crate::data::Owner;
use crate::data::TransactionData;
use crate::data::TransactionDataV;
use crate::data::TransactionEffects;
use crate::data::TransactionEffectsV;
use crate::data::TxInfoData;
use crate::data::TxInfoDataV;
use crate::data::TxInfoMetadata;
use crate::topic::TxInfoNodeStreamTopic;

verus! {

/// Error returned when bytes handed to the codec are not a payload
/// encoding.
#[derive(PartialEq, Eq, Structural, Clone, Copy, Debug)]
pub enum DecodeError {
    /// The input ended before the value it announces.
    Truncated,
    /// A union tag or boolean byte holds no defined value.
    InvalidTag,
    /// A text field is not valid UTF-8.
    InvalidText,
    /// Bytes remain after the one encoded payload.
    TrailingBytes,
}

/// The eight little-endian bytes of an integer.
#[verifier::opaque]
pub open spec fn spec_enc_u64(x: u64) -> Seq<u8> {
    seq![
        (x % 0x100) as u8,
        ((x / 0x100) % 0x100) as u8,
        ((x / 0x10000) % 0x100) as u8,
        ((x / 0x1000000) % 0x100) as u8,
        ((x / 0x100000000) % 0x100) as u8,
        ((x / 0x10000000000) % 0x100) as u8,
        ((x / 0x1000000000000) % 0x100) as u8,
        ((x / 0x100000000000000) % 0x100) as u8,
    ]
}

/// The integer read from eight little-endian bytes.
#[verifier::opaque]
pub open spec fn spec_le_val(s: Seq<u8>) -> int
    recommends
        s.len() >= 8,
{
    s[0] + s[1] * 0x100 + s[2] * 0x10000 + s[3] * 0x1000000 + s[4] * 0x100000000 + s[5]
        * 0x10000000000 + s[6] * 0x1000000000000 + s[7] * 0x100000000000000
}

/// Decodes an integer, leaving the rest of the input.
#[verifier::opaque]
pub open spec fn spec_dec_u64(s: Seq<u8>) -> Option<(u64, Seq<u8>)> {
    if s.len() < 8 {
        None
    } else {
        Some((spec_le_val(s) as u64, s.skip(8)))
    }
}

proof fn lemma_le_val_enc(x: u64)
    ensures
        spec_le_val(spec_enc_u64(x)) == x,
{
    reveal(spec_enc_u64);
    reveal(spec_le_val);
    assert(x % 0x100 + (x / 0x100 % 0x100) * 0x100 + (x / 0x10000 % 0x100) * 0x10000 + (x
        / 0x1000000 % 0x100) * 0x1000000 + (x / 0x100000000 % 0x100) * 0x100000000 + (x
        / 0x10000000000 % 0x100) * 0x10000000000 + (x / 0x1000000000000 % 0x100) * 0x1000000000000
        + (x / 0x100000000000000 % 0x100) * 0x100000000000000 == x) by (bit_vector);
}

/// Round trip of the integer encoding, at any position in a stream.
pub proof fn lemma_dec_enc_u64(x: u64, rest: Seq<u8>)
    ensures
        spec_dec_u64(spec_enc_u64(x) + rest) == Some((x, rest)),
{
    reveal(spec_enc_u64);
    reveal(spec_le_val);
    reveal(spec_dec_u64);
    let s = spec_enc_u64(x) + rest;
    lemma_le_val_enc(x);
    assert(spec_le_val(s) == spec_le_val(spec_enc_u64(x)));
    assert(s.skip(8) =~= rest);
}

/// One byte: `1` for true, `0` for false.
pub open spec fn spec_enc_bool(b: bool) -> Seq<u8> {
    if b {
        seq![1u8]
    } else {
        seq![0u8]
    }
}

/// Decodes a boolean; any byte other than `0` or `1` is invalid.
pub open spec fn spec_dec_bool(s: Seq<u8>) -> Option<(bool, Seq<u8>)> {
    if s.len() < 1 {
        None
    } else if s[0] == 0u8 {
        Some((false, s.skip(1)))
    } else if s[0] == 1u8 {
        Some((true, s.skip(1)))
    } else {
        None
    }
}

pub proof fn lemma_dec_enc_bool(b: bool, rest: Seq<u8>)
    ensures
        spec_dec_bool(spec_enc_bool(b) + rest) == Some((b, rest)),
{
    let s = spec_enc_bool(b) + rest;
    assert(s.skip(1) =~= rest);
}

/// A byte string: its length, then its bytes.
pub open spec fn spec_enc_bytes(b: Seq<u8>) -> Seq<u8>
    recommends
        b.len() <= u64::MAX,
{
    spec_enc_u64(b.len() as u64) + b
}

/// Decodes a byte string, leaving the rest of the input.
pub open spec fn spec_dec_bytes(s: Seq<u8>) -> Option<(Seq<u8>, Seq<u8>)> {
    match spec_dec_u64(s) {
        None => None,
        Some((n, r)) => {
            if r.len() < n {
                None
            } else {
                Some((r.take(n as int), r.skip(n as int)))
            }
        },
    }
}

pub proof fn lemma_dec_enc_bytes(b: Seq<u8>, rest: Seq<u8>)
    requires
        b.len() <= u64::MAX,
    ensures
        spec_dec_bytes(spec_enc_bytes(b) + rest) == Some((b, rest)),
{
    let s = spec_enc_bytes(b) + rest;
    assert(s =~= spec_enc_u64(b.len() as u64) + (b + rest));
    lemma_dec_enc_u64(b.len() as u64, b + rest);
    assert((b + rest).take(b.len() as int) =~= b);
    assert((b + rest).skip(b.len() as int) =~= rest);
}

/// Text: the length of its UTF-8 form, then those bytes.
pub open spec fn spec_enc_string(cs: Seq<char>) -> Seq<u8>
    recommends
        encode_utf8(cs).len() <= u64::MAX,
{
    spec_enc_bytes(encode_utf8(cs))
}

/// Decodes text; the announced bytes must be valid UTF-8.
pub open spec fn spec_dec_string(s: Seq<u8>) -> Option<(Seq<char>, Seq<u8>)> {
    match spec_dec_bytes(s) {
        None => None,
        Some((b, r)) => {
            if valid_utf8(b) {
                Some((decode_utf8(b), r))
            } else {
                None
            }
        },
    }
}

pub proof fn lemma_dec_enc_string(cs: Seq<char>, rest: Seq<u8>)
    requires
        encode_utf8(cs).len() <= u64::MAX,
    ensures
        spec_dec_string(spec_enc_string(cs) + rest) == Some((cs, rest)),
{
    lemma_dec_enc_bytes(encode_utf8(cs), rest);
    encode_utf8_valid_utf8(cs);
    encode_utf8_decode_utf8(cs);
}

/// Appends the little-endian bytes of an integer.
fn emit_u64(out: &mut Vec<u8>, x: u64)
    ensures
        final(out)@ == old(out)@ + spec_enc_u64(x),
{
    out.push((x % 0x100) as u8);
    out.push(((x / 0x100) % 0x100) as u8);
    out.push(((x / 0x10000) % 0x100) as u8);
    out.push(((x / 0x1000000) % 0x100) as u8);
    out.push(((x / 0x100000000) % 0x100) as u8);
    out.push(((x / 0x10000000000) % 0x100) as u8);
    out.push(((x / 0x1000000000000) % 0x100) as u8);
    out.push(((x / 0x100000000000000) % 0x100) as u8);
    proof {
        reveal(spec_enc_u64);
        assert(out@ =~= old(out)@ + spec_enc_u64(x));
    }
}

/// Appends a boolean byte.
fn emit_bool(out: &mut Vec<u8>, b: bool)
    ensures
        final(out)@ == old(out)@ + spec_enc_bool(b),
{
    if b {
        out.push(1u8);
    } else {
        out.push(0u8);
    }
    proof {
        assert(out@ =~= old(out)@ + spec_enc_bool(b));
    }
}

/// Appends a length-prefixed byte string.
fn emit_bytes(out: &mut Vec<u8>, b: &Vec<u8>)
    ensures
        final(out)@ == old(out)@ + spec_enc_bytes(b@),
{
    emit_u64(out, b.len() as u64);
    let mut copy = clone_bytes(b);
    out.append(&mut copy);
    proof {
        assert(out@ =~= old(out)@ + spec_enc_bytes(b@));
    }
}

/// Appends length-prefixed UTF-8 text.
fn emit_string(out: &mut Vec<u8>, s: &String)
    ensures
        final(out)@ == old(out)@ + spec_enc_string(s@),
{
    let bytes = s.as_str().as_bytes_vec();
    emit_bytes(out, &bytes);
}

/// Reads an integer at the given position.
fn read_u64(b: &Vec<u8>, pos: usize) -> (r: Result<(u64, usize), DecodeError>)
    requires
        pos <= b.len(),
    ensures
        match r {
            Ok((x, end)) => pos <= end <= b@.len() && spec_dec_u64(b@.skip(pos as int)) == Some(
                (x, b@.skip(end as int)),
            ),
            Err(e) => spec_dec_u64(b@.skip(pos as int)) is None && e == DecodeError::Truncated,
        },
{
    if b.len() - pos < 8 {
        proof {
            reveal(spec_dec_u64);
        }
        return Err(DecodeError::Truncated);
    }
    let x: u64 = (b[pos] as u64) + (b[pos + 1] as u64) * 0x100 + (b[pos + 2] as u64) * 0x10000 + (
    b[pos + 3] as u64) * 0x1000000 + (b[pos + 4] as u64) * 0x100000000 + (b[pos + 5] as u64)
        * 0x10000000000 + (b[pos + 6] as u64) * 0x1000000000000 + (b[pos + 7] as u64)
        * 0x100000000000000;
    proof {
        reveal(spec_le_val);
        reveal(spec_dec_u64);
        let s = b@.skip(pos as int);
        assert(s[0] == b@[pos as int]);
        assert(s[1] == b@[pos as int + 1]);
        assert(s[2] == b@[pos as int + 2]);
        assert(s[3] == b@[pos as int + 3]);
        assert(s[4] == b@[pos as int + 4]);
        assert(s[5] == b@[pos as int + 5]);
        assert(s[6] == b@[pos as int + 6]);
        assert(s[7] == b@[pos as int + 7]);
        assert(spec_le_val(s) == x);
        assert(s.skip(8) =~= b@.skip(pos as int + 8));
    }
    Ok((x, pos + 8))
}

/// Reads a boolean byte at the given position.
fn read_bool(b: &Vec<u8>, pos: usize) -> (r: Result<(bool, usize), DecodeError>)
    requires
        pos <= b.len(),
    ensures
        match r {
            Ok((x, end)) => pos <= end <= b@.len() && spec_dec_bool(b@.skip(pos as int)) == Some(
                (x, b@.skip(end as int)),
            ),
            Err(_) => spec_dec_bool(b@.skip(pos as int)) is None,
        },
{
    if b.len() - pos < 1 {
        return Err(DecodeError::Truncated);
    }
    proof {
        assert(b@.skip(pos as int)[0] == b@[pos as int]);
        assert(b@.skip(pos as int).skip(1) =~= b@.skip(pos as int + 1));
    }
    let byte = b[pos];
    if byte == 0 {
        Ok((false, pos + 1))
    } else if byte == 1 {
        Ok((true, pos + 1))
    } else {
        Err(DecodeError::InvalidTag)
    }
}

/// Reads a length-prefixed byte string at the given position.
#[verifier::loop_isolation(false)]
fn read_bytes(b: &Vec<u8>, pos: usize) -> (r: Result<(Vec<u8>, usize), DecodeError>)
    requires
        pos <= b.len(),
    ensures
        match r {
            Ok((x, end)) => pos <= end <= b@.len() && spec_dec_bytes(b@.skip(pos as int)) == Some(
                (x@, b@.skip(end as int)),
            ),
            Err(e) => spec_dec_bytes(b@.skip(pos as int)) is None && e == DecodeError::Truncated,
        },
{
    let (n, p1) = match read_u64(b, pos) {
        Ok(v) => v,
        Err(e) => {
            return Err(e);
        },
    };
    let remaining: u64 = (b.len() - p1) as u64;
    if remaining < n {
        proof {
            assert(b@.skip(p1 as int).len() < n);
        }
        return Err(DecodeError::Truncated);
    }
    let count = n as usize;
    proof {
        assert(n <= b@.len() - p1);
        assert(count == n);
        assert(p1 + count <= b@.len());
    }
    let mut content: Vec<u8> = Vec::new();
    let mut i: usize = 0;
    while i < count
        invariant
            i <= count,
            p1 + count <= b@.len(),
            content@ =~= b@.subrange(p1 as int, p1 as int + i as int),
        decreases count - i,
    {
        content.push(b[p1 + i]);
        i = i + 1;
    }
    proof {
        assert(content@ =~= b@.skip(p1 as int).take(n as int));
        assert(b@.skip(p1 as int).skip(n as int) =~= b@.skip(p1 as int + n as int));
    }
    Ok((content, p1 + count))
}

/// Reads length-prefixed UTF-8 text at the given position. Relies on
/// `String::from_utf8` of std: it succeeds exactly on valid UTF-8 input,
/// returning the text those bytes encode.
#[verifier::external_body]
fn bytes_to_string(v: Vec<u8>) -> (r: Option<String>)
    ensures
        match r {
            Some(s) => valid_utf8(v@) && encode_utf8(s@) == v@,
            None => !valid_utf8(v@),
        },
{
    String::from_utf8(v).ok()
}

/// Reads length-prefixed text at the given position.
fn read_string(b: &Vec<u8>, pos: usize) -> (r: Result<(String, usize), DecodeError>)
    requires
        pos <= b.len(),
    ensures
        match r {
            Ok((x, end)) => pos <= end <= b@.len() && spec_dec_string(b@.skip(pos as int)) == Some(
                (x@, b@.skip(end as int)),
            ),
            Err(_) => spec_dec_string(b@.skip(pos as int)) is None,
        },
{
    let (content, p1) = match read_bytes(b, pos) {
        Ok(v) => v,
        Err(e) => {
            return Err(e);
        },
    };
    let ghost cv = content@;
    match bytes_to_string(content) {
        Some(s) => {
            proof {
                encode_utf8_decode_utf8(s@);
                assert(decode_utf8(cv) == s@);
            }
            Ok((s, p1))
        },
        None => Err(DecodeError::InvalidText),
    }
}


/// One byte.
pub open spec fn spec_dec_u8(s: Seq<u8>) -> Option<(u8, Seq<u8>)> {
    if s.len() < 1 {
        None
    } else {
        Some((s[0], s.skip(1)))
    }
}

fn read_u8(b: &Vec<u8>, pos: usize) -> (r: Result<(u8, usize), DecodeError>)
    requires
        pos <= b.len(),
    ensures
        match r {
            Ok((x, end)) => pos <= end <= b@.len() && spec_dec_u8(b@.skip(pos as int)) == Some(
                (x, b@.skip(end as int)),
            ),
            Err(_) => spec_dec_u8(b@.skip(pos as int)) is None,
        },
{
    if b.len() - pos < 1 {
        return Err(DecodeError::Truncated);
    }
    proof {
        assert(b@.skip(pos as int)[0] == b@[pos as int]);
        assert(b@.skip(pos as int).skip(1) =~= b@.skip(pos as int + 1));
    }
    Ok((b[pos], pos + 1))
}

/// An object reference: id, version, digest.
pub open spec fn spec_enc_ref(r: ObjectRef) -> Seq<u8> {
    spec_enc_u64(r.id) + spec_enc_u64(r.version) + spec_enc_u64(r.digest)
}

pub open spec fn spec_dec_ref(s: Seq<u8>) -> Option<(ObjectRef, Seq<u8>)> {
    match spec_dec_u64(s) {
        None => None,
        Some((id, s1)) => match spec_dec_u64(s1) {
            None => None,
            Some((version, s2)) => match spec_dec_u64(s2) {
                None => None,
                Some((digest, s3)) => Some((ObjectRef { id, version, digest }, s3)),
            },
        },
    }
}

pub proof fn lemma_dec_enc_ref(r: ObjectRef, rest: Seq<u8>)
    ensures
        spec_dec_ref(spec_enc_ref(r) + rest) == Some((r, rest)),
{
    assert(spec_enc_ref(r) + rest =~= spec_enc_u64(r.id) + (spec_enc_u64(r.version) + (
    spec_enc_u64(r.digest) + rest)));
    lemma_dec_enc_u64(r.id, spec_enc_u64(r.version) + (spec_enc_u64(r.digest) + rest));
    lemma_dec_enc_u64(r.version, spec_enc_u64(r.digest) + rest);
    lemma_dec_enc_u64(r.digest, rest);
}

fn read_ref(b: &Vec<u8>, pos: usize) -> (r: Result<(ObjectRef, usize), DecodeError>)
    requires
        pos <= b.len(),
    ensures
        match r {
            Ok((x, end)) => pos <= end <= b@.len() && spec_dec_ref(b@.skip(pos as int)) == Some(
                (x, b@.skip(end as int)),
            ),
            Err(_) => spec_dec_ref(b@.skip(pos as int)) is None,
        },
{
    let (id, p1) = match read_u64(b, pos) {
        Ok(v) => v,
        Err(e) => {
            return Err(e);
        },
    };
    let (version, p2) = match read_u64(b, p1) {
        Ok(v) => v,
        Err(e) => {
            return Err(e);
        },
    };
    let (digest, p3) = match read_u64(b, p2) {
        Ok(v) => v,
        Err(e) => {
            return Err(e);
        },
    };
    Ok((ObjectRef { id, version, digest }, p3))
}

fn emit_ref(out: &mut Vec<u8>, r: &ObjectRef)
    ensures
        final(out)@ == old(out)@ + spec_enc_ref(*r),
{
    emit_u64(out, r.id);
    emit_u64(out, r.version);
    emit_u64(out, r.digest);
    proof {
        assert(out@ =~= old(out)@ + spec_enc_ref(*r));
    }
}

/// An owner: a tag byte, then the owning address, object, or shared
/// version where the variant carries one.
pub open spec fn spec_enc_owner(w: Owner) -> Seq<u8> {
    match w {
        Owner::Address(a) => seq![0u8] + spec_enc_u64(a),
        Owner::Object(o) => seq![1u8] + spec_enc_u64(o),
        Owner::Shared(v) => seq![2u8] + spec_enc_u64(v),
        Owner::Immutable => seq![3u8],
    }
}

pub open spec fn spec_dec_owner(s: Seq<u8>) -> Option<(Owner, Seq<u8>)> {
    match spec_dec_u8(s) {
        None => None,
        Some((tag, s1)) => {
            if tag == 0 {
                match spec_dec_u64(s1) {
                    None => None,
                    Some((a, s2)) => Some((Owner::Address(a), s2)),
                }
            } else if tag == 1 {
                match spec_dec_u64(s1) {
                    None => None,
                    Some((o, s2)) => Some((Owner::Object(o), s2)),
                }
            } else if tag == 2 {
                match spec_dec_u64(s1) {
                    None => None,
                    Some((v, s2)) => Some((Owner::Shared(v), s2)),
                }
            } else if tag == 3 {
                Some((Owner::Immutable, s1))
            } else {
                None
            }
        },
    }
}

pub proof fn lemma_dec_enc_owner(w: Owner, rest: Seq<u8>)
    ensures
        spec_dec_owner(spec_enc_owner(w) + rest) == Some((w, rest)),
{
    let s = spec_enc_owner(w) + rest;
    match w {
        Owner::Address(a) => {
            assert(s =~= seq![0u8] + (spec_enc_u64(a) + rest));
            assert(s[0] == 0u8);
            assert(s.skip(1) =~= spec_enc_u64(a) + rest);
            lemma_dec_enc_u64(a, rest);
        },
        Owner::Object(o) => {
            assert(s =~= seq![1u8] + (spec_enc_u64(o) + rest));
            assert(s[0] == 1u8);
            assert(s.skip(1) =~= spec_enc_u64(o) + rest);
            lemma_dec_enc_u64(o, rest);
        },
        Owner::Shared(v) => {
            assert(s =~= seq![2u8] + (spec_enc_u64(v) + rest));
            assert(s[0] == 2u8);
            assert(s.skip(1) =~= spec_enc_u64(v) + rest);
            lemma_dec_enc_u64(v, rest);
        },
        Owner::Immutable => {
            assert(s[0] == 3u8);
            assert(s.skip(1) =~= rest);
        },
    }
}

fn read_owner(b: &Vec<u8>, pos: usize) -> (r: Result<(Owner, usize), DecodeError>)
    requires
        pos <= b.len(),
    ensures
        match r {
            Ok((x, end)) => pos <= end <= b@.len() && spec_dec_owner(b@.skip(pos as int)) == Some(
                (x, b@.skip(end as int)),
            ),
            Err(_) => spec_dec_owner(b@.skip(pos as int)) is None,
        },
{
    let (tag, p1) = match read_u8(b, pos) {
        Ok(v) => v,
        Err(e) => {
            return Err(e);
        },
    };
    if tag == 0 {
        let (a, p2) = match read_u64(b, p1) {
            Ok(v) => v,
            Err(e) => {
                return Err(e);
            },
        };
        Ok((Owner::Address(a), p2))
    } else if tag == 1 {
        let (o, p2) = match read_u64(b, p1) {
            Ok(v) => v,
            Err(e) => {
                return Err(e);
            },
        };
        Ok((Owner::Object(o), p2))
    } else if tag == 2 {
        let (v, p2) = match read_u64(b, p1) {
            Ok(v) => v,
            Err(e) => {
                return Err(e);
            },
        };
        Ok((Owner::Shared(v), p2))
    } else if tag == 3 {
        Ok((Owner::Immutable, p1))
    } else {
        Err(DecodeError::InvalidTag)
    }
}

fn emit_owner(out: &mut Vec<u8>, w: &Owner)
    ensures
        final(out)@ == old(out)@ + spec_enc_owner(*w),
{
    match w {
        Owner::Address(a) => {
            out.push(0u8);
            emit_u64(out, *a);
        },
        Owner::Object(o) => {
            out.push(1u8);
            emit_u64(out, *o);
        },
        Owner::Shared(v) => {
            out.push(2u8);
            emit_u64(out, *v);
        },
        Owner::Immutable => {
            out.push(3u8);
        },
    }
    proof {
        assert(out@ =~= old(out)@ + spec_enc_owner(*w));
    }
}

/// A reference together with its owner.
pub open spec fn spec_enc_owned_ref(r: OwnedRef) -> Seq<u8> {
    spec_enc_ref(r.reference) + spec_enc_owner(r.owner)
}

pub open spec fn spec_dec_owned_ref(s: Seq<u8>) -> Option<(OwnedRef, Seq<u8>)> {
    match spec_dec_ref(s) {
        None => None,
        Some((reference, s1)) => match spec_dec_owner(s1) {
            None => None,
            Some((owner, s2)) => Some((OwnedRef { reference, owner }, s2)),
        },
    }
}

pub proof fn lemma_dec_enc_owned_ref(r: OwnedRef, rest: Seq<u8>)
    ensures
        spec_dec_owned_ref(spec_enc_owned_ref(r) + rest) == Some((r, rest)),
{
    assert(spec_enc_owned_ref(r) + rest =~= spec_enc_ref(r.reference) + (spec_enc_owner(r.owner)
        + rest));
    lemma_dec_enc_ref(r.reference, spec_enc_owner(r.owner) + rest);
    lemma_dec_enc_owner(r.owner, rest);
}

fn read_owned_ref(b: &Vec<u8>, pos: usize) -> (r: Result<(OwnedRef, usize), DecodeError>)
    requires
        pos <= b.len(),
    ensures
        match r {
            Ok((x, end)) => pos <= end <= b@.len() && spec_dec_owned_ref(b@.skip(pos as int))
                == Some((x, b@.skip(end as int))),
            Err(_) => spec_dec_owned_ref(b@.skip(pos as int)) is None,
        },
{
    let (reference, p1) = match read_ref(b, pos) {
        Ok(v) => v,
        Err(e) => {
            return Err(e);
        },
    };
    let (owner, p2) = match read_owner(b, p1) {
        Ok(v) => v,
        Err(e) => {
            return Err(e);
        },
    };
    Ok((OwnedRef { reference, owner }, p2))
}

fn emit_owned_ref(out: &mut Vec<u8>, r: &OwnedRef)
    ensures
        final(out)@ == old(out)@ + spec_enc_owned_ref(*r),
{
    emit_ref(out, &r.reference);
    emit_owner(out, &r.owner);
    proof {
        assert(out@ =~= old(out)@ + spec_enc_owned_ref(*r));
    }
}

/// A gas cost summary: its four cost integers.
pub open spec fn spec_enc_gas(g: GasCostSummary) -> Seq<u8> {
    spec_enc_u64(g.computation_cost) + spec_enc_u64(g.storage_cost) + spec_enc_u64(g.storage_rebate)
        + spec_enc_u64(g.non_refundable_storage_fee)
}

pub open spec fn spec_dec_gas(s: Seq<u8>) -> Option<(GasCostSummary, Seq<u8>)> {
    match spec_dec_u64(s) {
        None => None,
        Some((computation_cost, s1)) => match spec_dec_u64(s1) {
            None => None,
            Some((storage_cost, s2)) => match spec_dec_u64(s2) {
                None => None,
                Some((storage_rebate, s3)) => match spec_dec_u64(s3) {
                    None => None,
                    Some((non_refundable_storage_fee, s4)) => Some(
                        (
                            GasCostSummary {
                                computation_cost,
                                storage_cost,
                                storage_rebate,
                                non_refundable_storage_fee,
                            },
                            s4,
                        ),
                    ),
                },
            },
        },
    }
}

pub proof fn lemma_dec_enc_gas(g: GasCostSummary, rest: Seq<u8>)
    ensures
        spec_dec_gas(spec_enc_gas(g) + rest) == Some((g, rest)),
{
    assert(spec_enc_gas(g) + rest =~= spec_enc_u64(g.computation_cost) + (spec_enc_u64(
        g.storage_cost,
    ) + (spec_enc_u64(g.storage_rebate) + (spec_enc_u64(g.non_refundable_storage_fee) + rest))));
    lemma_dec_enc_u64(
        g.computation_cost,
        spec_enc_u64(g.storage_cost) + (spec_enc_u64(g.storage_rebate) + (spec_enc_u64(
            g.non_refundable_storage_fee,
        ) + rest)),
    );
    lemma_dec_enc_u64(
        g.storage_cost,
        spec_enc_u64(g.storage_rebate) + (spec_enc_u64(g.non_refundable_storage_fee) + rest),
    );
    lemma_dec_enc_u64(g.storage_rebate, spec_enc_u64(g.non_refundable_storage_fee) + rest);
    lemma_dec_enc_u64(g.non_refundable_storage_fee, rest);
}

fn read_gas(b: &Vec<u8>, pos: usize) -> (r: Result<(GasCostSummary, usize), DecodeError>)
    requires
        pos <= b.len(),
    ensures
        match r {
            Ok((x, end)) => pos <= end <= b@.len() && spec_dec_gas(b@.skip(pos as int)) == Some(
                (x, b@.skip(end as int)),
            ),
            Err(_) => spec_dec_gas(b@.skip(pos as int)) is None,
        },
{
    let (computation_cost, p1) = match read_u64(b, pos) {
        Ok(v) => v,
        Err(e) => {
            return Err(e);
        },
    };
    let (storage_cost, p2) = match read_u64(b, p1) {
        Ok(v) => v,
        Err(e) => {
            return Err(e);
        },
    };
    let (storage_rebate, p3) = match read_u64(b, p2) {
        Ok(v) => v,
        Err(e) => {
            return Err(e);
        },
    };
    let (non_refundable_storage_fee, p4) = match read_u64(b, p3) {
        Ok(v) => v,
        Err(e) => {
            return Err(e);
        },
    };
    Ok(
        (
            GasCostSummary {
                computation_cost,
                storage_cost,
                storage_rebate,
                non_refundable_storage_fee,
            },
            p4,
        ),
    )
}

fn emit_gas(out: &mut Vec<u8>, g: &GasCostSummary)
    ensures
        final(out)@ == old(out)@ + spec_enc_gas(*g),
{
    emit_u64(out, g.computation_cost);
    emit_u64(out, g.storage_cost);
    emit_u64(out, g.storage_rebate);
    emit_u64(out, g.non_refundable_storage_fee);
    proof {
        assert(out@ =~= old(out)@ + spec_enc_gas(*g));
    }
}


/// An object state: identity, package flag, content bytes.
pub open spec fn spec_enc_obj(o: ObjectV) -> Seq<u8> {
    spec_enc_u64(o.id) + spec_enc_u64(o.version) + spec_enc_u64(o.digest) + spec_enc_bool(
        o.is_package,
    ) + spec_enc_bytes(o.contents)
}

pub open spec fn spec_dec_obj(s: Seq<u8>) -> Option<(ObjectV, Seq<u8>)> {
    match spec_dec_u64(s) {
        None => None,
        Some((id, s1)) => match spec_dec_u64(s1) {
            None => None,
            Some((version, s2)) => match spec_dec_u64(s2) {
                None => None,
                Some((digest, s3)) => match spec_dec_bool(s3) {
                    None => None,
                    Some((is_package, s4)) => match spec_dec_bytes(s4) {
                        None => None,
                        Some((contents, s5)) => Some(
                            (ObjectV { id, version, digest, is_package, contents }, s5),
                        ),
                    },
                },
            },
        },
    }
}

/// True when the object's contents fit the length prefix.
pub open spec fn spec_obj_ok(o: ObjectV) -> bool {
    o.contents.len() <= u64::MAX
}

pub proof fn lemma_dec_enc_obj(o: ObjectV, rest: Seq<u8>)
    requires
        spec_obj_ok(o),
    ensures
        spec_dec_obj(spec_enc_obj(o) + rest) == Some((o, rest)),
{
    let t4 = spec_enc_bytes(o.contents) + rest;
    let t3 = spec_enc_bool(o.is_package) + t4;
    let t2 = spec_enc_u64(o.digest) + t3;
    let t1 = spec_enc_u64(o.version) + t2;
    assert(spec_enc_obj(o) + rest =~= spec_enc_u64(o.id) + t1);
    lemma_dec_enc_u64(o.id, t1);
    lemma_dec_enc_u64(o.version, t2);
    lemma_dec_enc_u64(o.digest, t3);
    lemma_dec_enc_bool(o.is_package, t4);
    lemma_dec_enc_bytes(o.contents, rest);
}

fn read_obj(b: &Vec<u8>, pos: usize) -> (r: Result<(Object, usize), DecodeError>)
    requires
        pos <= b.len(),
    ensures
        match r {
            Ok((x, end)) => pos <= end <= b@.len() && spec_dec_obj(b@.skip(pos as int)) == Some(
                (x.deep_view(), b@.skip(end as int)),
            ),
            Err(_) => spec_dec_obj(b@.skip(pos as int)) is None,
        },
{
    let (id, p1) = match read_u64(b, pos) {
        Ok(v) => v,
        Err(e) => {
            return Err(e);
        },
    };
    let (version, p2) = match read_u64(b, p1) {
        Ok(v) => v,
        Err(e) => {
            return Err(e);
        },
    };
    let (digest, p3) = match read_u64(b, p2) {
        Ok(v) => v,
        Err(e) => {
            return Err(e);
        },
    };
    let (is_package, p4) = match read_bool(b, p3) {
        Ok(v) => v,
        Err(e) => {
            return Err(e);
        },
    };
    let (contents, p5) = match read_bytes(b, p4) {
        Ok(v) => v,
        Err(e) => {
            return Err(e);
        },
    };
    Ok((Object { id, version, digest, is_package, contents }, p5))
}

fn emit_obj(out: &mut Vec<u8>, o: &Object)
    ensures
        final(out)@ == old(out)@ + spec_enc_obj(o.deep_view()),
{
    emit_u64(out, o.id);
    emit_u64(out, o.version);
    emit_u64(out, o.digest);
    emit_bool(out, o.is_package);
    emit_bytes(out, &o.contents);
    proof {
        assert(out@ =~= old(out)@ + spec_enc_obj(o.deep_view()));
    }
}

/// An optional object: a presence byte, then the object when present.
pub open spec fn spec_enc_opt_obj(o: Option<ObjectV>) -> Seq<u8> {
    match o {
        None => seq![0u8],
        Some(ov) => seq![1u8] + spec_enc_obj(ov),
    }
}

pub open spec fn spec_dec_opt_obj(s: Seq<u8>) -> Option<(Option<ObjectV>, Seq<u8>)> {
    match spec_dec_u8(s) {
        None => None,
        Some((tag, s1)) => {
            if tag == 0 {
                Some((None, s1))
            } else if tag == 1 {
                match spec_dec_obj(s1) {
                    None => None,
                    Some((ov, s2)) => Some((Some(ov), s2)),
                }
            } else {
                None
            }
        },
    }
}

pub open spec fn spec_opt_obj_ok(o: Option<ObjectV>) -> bool {
    match o {
        None => true,
        Some(ov) => spec_obj_ok(ov),
    }
}

pub proof fn lemma_dec_enc_opt_obj(o: Option<ObjectV>, rest: Seq<u8>)
    requires
        spec_opt_obj_ok(o),
    ensures
        spec_dec_opt_obj(spec_enc_opt_obj(o) + rest) == Some((o, rest)),
{
    let s = spec_enc_opt_obj(o) + rest;
    match o {
        None => {
            assert(s[0] == 0u8);
            assert(s.skip(1) =~= rest);
        },
        Some(ov) => {
            assert(s =~= seq![1u8] + (spec_enc_obj(ov) + rest));
            assert(s[0] == 1u8);
            assert(s.skip(1) =~= spec_enc_obj(ov) + rest);
            lemma_dec_enc_obj(ov, rest);
        },
    }
}

fn read_opt_obj(b: &Vec<u8>, pos: usize) -> (r: Result<(Option<Object>, usize), DecodeError>)
    requires
        pos <= b.len(),
    ensures
        match r {
            Ok((x, end)) => pos <= end <= b@.len() && spec_dec_opt_obj(b@.skip(pos as int)) == Some(
                (x.deep_view(), b@.skip(end as int)),
            ),
            Err(_) => spec_dec_opt_obj(b@.skip(pos as int)) is None,
        },
{
    let (tag, p1) = match read_u8(b, pos) {
        Ok(v) => v,
        Err(e) => {
            return Err(e);
        },
    };
    if tag == 0 {
        Ok((None, p1))
    } else if tag == 1 {
        let (o, p2) = match read_obj(b, p1) {
            Ok(v) => v,
            Err(e) => {
                return Err(e);
            },
        };
        Ok((Some(o), p2))
    } else {
        Err(DecodeError::InvalidTag)
    }
}

fn emit_opt_obj(out: &mut Vec<u8>, o: &Option<Object>)
    ensures
        final(out)@ == old(out)@ + spec_enc_opt_obj(o.deep_view()),
{
    match o {
        None => {
            out.push(0u8);
        },
        Some(ov) => {
            out.push(1u8);
            emit_obj(out, ov);
        },
    }
    proof {
        assert(out@ =~= old(out)@ + spec_enc_opt_obj(o.deep_view()));
    }
}

/// A lifecycle transition: a tag byte, then the variant's data.
pub open spec fn spec_enc_status(c: ObjectChangeStatus) -> Seq<u8> {
    match c {
        ObjectChangeStatus::Created(r, w) => seq![0u8] + spec_enc_ref(r) + spec_enc_owner(w),
        ObjectChangeStatus::Mutated(r, w) => seq![1u8] + spec_enc_ref(r) + spec_enc_owner(w),
        ObjectChangeStatus::Deleted(r) => seq![2u8] + spec_enc_ref(r),
        ObjectChangeStatus::Wrapped(r) => seq![3u8] + spec_enc_ref(r),
        ObjectChangeStatus::Unwrapped(r, w) => seq![4u8] + spec_enc_ref(r) + spec_enc_owner(w),
        ObjectChangeStatus::UnwrappedThenDeleted(r) => seq![5u8] + spec_enc_ref(r),
        ObjectChangeStatus::LoadedChildObject(id, version) => seq![6u8] + spec_enc_u64(id)
            + spec_enc_u64(version),
    }
}

pub open spec fn spec_dec_status(s: Seq<u8>) -> Option<(ObjectChangeStatus, Seq<u8>)> {
    match spec_dec_u8(s) {
        None => None,
        Some((tag, s1)) => {
            if tag == 0 || tag == 1 || tag == 4 {
                match spec_dec_ref(s1) {
                    None => None,
                    Some((r, s2)) => match spec_dec_owner(s2) {
                        None => None,
                        Some((w, s3)) => {
                            if tag == 0 {
                                Some((ObjectChangeStatus::Created(r, w), s3))
                            } else if tag == 1 {
                                Some((ObjectChangeStatus::Mutated(r, w), s3))
                            } else {
                                Some((ObjectChangeStatus::Unwrapped(r, w), s3))
                            }
                        },
                    },
                }
            } else if tag == 2 || tag == 3 || tag == 5 {
                match spec_dec_ref(s1) {
                    None => None,
                    Some((r, s2)) => {
                        if tag == 2 {
                            Some((ObjectChangeStatus::Deleted(r), s2))
                        } else if tag == 3 {
                            Some((ObjectChangeStatus::Wrapped(r), s2))
                        } else {
                            Some((ObjectChangeStatus::UnwrappedThenDeleted(r), s2))
                        }
                    },
                }
            } else if tag == 6 {
                match spec_dec_u64(s1) {
                    None => None,
                    Some((id, s2)) => match spec_dec_u64(s2) {
                        None => None,
                        Some((version, s3)) => Some(
                            (ObjectChangeStatus::LoadedChildObject(id, version), s3),
                        ),
                    },
                }
            } else {
                None
            }
        },
    }
}

pub proof fn lemma_dec_enc_status(c: ObjectChangeStatus, rest: Seq<u8>)
    ensures
        spec_dec_status(spec_enc_status(c) + rest) == Some((c, rest)),
{
    let s = spec_enc_status(c) + rest;
    match c {
        ObjectChangeStatus::Created(r, w) => {
            assert(s =~= seq![0u8] + (spec_enc_ref(r) + (spec_enc_owner(w) + rest)));
            assert(s[0] == 0u8);
            assert(s.skip(1) =~= spec_enc_ref(r) + (spec_enc_owner(w) + rest));
            lemma_dec_enc_ref(r, spec_enc_owner(w) + rest);
            lemma_dec_enc_owner(w, rest);
        },
        ObjectChangeStatus::Mutated(r, w) => {
            assert(s =~= seq![1u8] + (spec_enc_ref(r) + (spec_enc_owner(w) + rest)));
            assert(s[0] == 1u8);
            assert(s.skip(1) =~= spec_enc_ref(r) + (spec_enc_owner(w) + rest));
            lemma_dec_enc_ref(r, spec_enc_owner(w) + rest);
            lemma_dec_enc_owner(w, rest);
        },
        ObjectChangeStatus::Deleted(r) => {
            assert(s =~= seq![2u8] + (spec_enc_ref(r) + rest));
            assert(s[0] == 2u8);
            assert(s.skip(1) =~= spec_enc_ref(r) + rest);
            lemma_dec_enc_ref(r, rest);
        },
        ObjectChangeStatus::Wrapped(r) => {
            assert(s =~= seq![3u8] + (spec_enc_ref(r) + rest));
            assert(s[0] == 3u8);
            assert(s.skip(1) =~= spec_enc_ref(r) + rest);
            lemma_dec_enc_ref(r, rest);
        },
        ObjectChangeStatus::Unwrapped(r, w) => {
            assert(s =~= seq![4u8] + (spec_enc_ref(r) + (spec_enc_owner(w) + rest)));
            assert(s[0] == 4u8);
            assert(s.skip(1) =~= spec_enc_ref(r) + (spec_enc_owner(w) + rest));
            lemma_dec_enc_ref(r, spec_enc_owner(w) + rest);
            lemma_dec_enc_owner(w, rest);
        },
        ObjectChangeStatus::UnwrappedThenDeleted(r) => {
            assert(s =~= seq![5u8] + (spec_enc_ref(r) + rest));
            assert(s[0] == 5u8);
            assert(s.skip(1) =~= spec_enc_ref(r) + rest);
            lemma_dec_enc_ref(r, rest);
        },
        ObjectChangeStatus::LoadedChildObject(id, version) => {
            assert(s =~= seq![6u8] + (spec_enc_u64(id) + (spec_enc_u64(version) + rest)));
            assert(s[0] == 6u8);
            assert(s.skip(1) =~= spec_enc_u64(id) + (spec_enc_u64(version) + rest));
            lemma_dec_enc_u64(id, spec_enc_u64(version) + rest);
            lemma_dec_enc_u64(version, rest);
        },
    }
}

fn read_status(b: &Vec<u8>, pos: usize) -> (r: Result<(ObjectChangeStatus, usize), DecodeError>)
    requires
        pos <= b.len(),
    ensures
        match r {
            Ok((x, end)) => pos <= end <= b@.len() && spec_dec_status(b@.skip(pos as int)) == Some(
                (x, b@.skip(end as int)),
            ),
            Err(_) => spec_dec_status(b@.skip(pos as int)) is None,
        },
{
    let (tag, p1) = match read_u8(b, pos) {
        Ok(v) => v,
        Err(e) => {
            return Err(e);
        },
    };
    if tag == 0 || tag == 1 || tag == 4 {
        let (reference, p2) = match read_ref(b, p1) {
            Ok(v) => v,
            Err(e) => {
                return Err(e);
            },
        };
        let (owner, p3) = match read_owner(b, p2) {
            Ok(v) => v,
            Err(e) => {
                return Err(e);
            },
        };
        if tag == 0 {
            Ok((ObjectChangeStatus::Created(reference, owner), p3))
        } else if tag == 1 {
            Ok((ObjectChangeStatus::Mutated(reference, owner), p3))
        } else {
            Ok((ObjectChangeStatus::Unwrapped(reference, owner), p3))
        }
    } else if tag == 2 || tag == 3 || tag == 5 {
        let (reference, p2) = match read_ref(b, p1) {
            Ok(v) => v,
            Err(e) => {
                return Err(e);
            },
        };
        if tag == 2 {
            Ok((ObjectChangeStatus::Deleted(reference), p2))
        } else if tag == 3 {
            Ok((ObjectChangeStatus::Wrapped(reference), p2))
        } else {
            Ok((ObjectChangeStatus::UnwrappedThenDeleted(reference), p2))
        }
    } else if tag == 6 {
        let (id, p2) = match read_u64(b, p1) {
            Ok(v) => v,
            Err(e) => {
                return Err(e);
            },
        };
        let (version, p3) = match read_u64(b, p2) {
            Ok(v) => v,
            Err(e) => {
                return Err(e);
            },
        };
        Ok((ObjectChangeStatus::LoadedChildObject(id, version), p3))
    } else {
        Err(DecodeError::InvalidTag)
    }
}

fn emit_status(out: &mut Vec<u8>, c: &ObjectChangeStatus)
    ensures
        final(out)@ == old(out)@ + spec_enc_status(*c),
{
    match c {
        ObjectChangeStatus::Created(r, w) => {
            out.push(0u8);
            emit_ref(out, r);
            emit_owner(out, w);
        },
        ObjectChangeStatus::Mutated(r, w) => {
            out.push(1u8);
            emit_ref(out, r);
            emit_owner(out, w);
        },
        ObjectChangeStatus::Deleted(r) => {
            out.push(2u8);
            emit_ref(out, r);
        },
        ObjectChangeStatus::Wrapped(r) => {
            out.push(3u8);
            emit_ref(out, r);
        },
        ObjectChangeStatus::Unwrapped(r, w) => {
            out.push(4u8);
            emit_ref(out, r);
            emit_owner(out, w);
        },
        ObjectChangeStatus::UnwrappedThenDeleted(r) => {
            out.push(5u8);
            emit_ref(out, r);
        },
        ObjectChangeStatus::LoadedChildObject(id, version) => {
            out.push(6u8);
            emit_u64(out, *id);
            emit_u64(out, *version);
        },
    }
    proof {
        assert(out@ =~= old(out)@ + spec_enc_status(*c));
    }
}

/// One recorded move call: package, module name, function name.
pub open spec fn spec_enc_move_call(m: MoveCallV) -> Seq<u8> {
    spec_enc_u64(m.package) + spec_enc_string(m.module) + spec_enc_string(m.function)
}

pub open spec fn spec_dec_move_call(s: Seq<u8>) -> Option<(MoveCallV, Seq<u8>)> {
    match spec_dec_u64(s) {
        None => None,
        Some((package, s1)) => match spec_dec_string(s1) {
            None => None,
            Some((module, s2)) => match spec_dec_string(s2) {
                None => None,
                Some((function, s3)) => Some((MoveCallV { package, module, function }, s3)),
            },
        },
    }
}

/// True when the call's names fit their length prefixes.
pub open spec fn spec_move_call_ok(m: MoveCallV) -> bool {
    encode_utf8(m.module).len() <= u64::MAX && encode_utf8(m.function).len() <= u64::MAX
}

pub proof fn lemma_dec_enc_move_call(m: MoveCallV, rest: Seq<u8>)
    requires
        spec_move_call_ok(m),
    ensures
        spec_dec_move_call(spec_enc_move_call(m) + rest) == Some((m, rest)),
{
    let t2 = spec_enc_string(m.function) + rest;
    let t1 = spec_enc_string(m.module) + t2;
    assert(spec_enc_move_call(m) + rest =~= spec_enc_u64(m.package) + t1);
    lemma_dec_enc_u64(m.package, t1);
    lemma_dec_enc_string(m.module, t2);
    lemma_dec_enc_string(m.function, rest);
}

fn read_move_call(b: &Vec<u8>, pos: usize) -> (r: Result<(MoveCallRec, usize), DecodeError>)
    requires
        pos <= b.len(),
    ensures
        match r {
            Ok((x, end)) => pos <= end <= b@.len() && spec_dec_move_call(b@.skip(pos as int))
                == Some((x.deep_view(), b@.skip(end as int))),
            Err(_) => spec_dec_move_call(b@.skip(pos as int)) is None,
        },
{
    let (package, p1) = match read_u64(b, pos) {
        Ok(v) => v,
        Err(e) => {
            return Err(e);
        },
    };
    let (module, p2) = match read_string(b, p1) {
        Ok(v) => v,
        Err(e) => {
            return Err(e);
        },
    };
    let (function, p3) = match read_string(b, p2) {
        Ok(v) => v,
        Err(e) => {
            return Err(e);
        },
    };
    Ok((MoveCallRec { package, module, function }, p3))
}

fn emit_move_call(out: &mut Vec<u8>, m: &MoveCallRec)
    ensures
        final(out)@ == old(out)@ + spec_enc_move_call(m.deep_view()),
{
    emit_u64(out, m.package);
    emit_string(out, &m.module);
    emit_string(out, &m.function);
    proof {
        assert(out@ =~= old(out)@ + spec_enc_move_call(m.deep_view()));
    }
}

/// A sequence of owned references, first to last.
pub open spec fn spec_enc_owned_refs(s: Seq<OwnedRef>) -> Seq<u8>
    decreases s.len(),
{
    if s.len() == 0 {
        Seq::empty()
    } else {
        spec_enc_owned_ref(s[0]) + spec_enc_owned_refs(s.drop_first())
    }
}

pub open spec fn spec_dec_owned_refs(s: Seq<u8>, n: nat) -> Option<(Seq<OwnedRef>, Seq<u8>)>
    decreases n,
{
    if n == 0 {
        Some((Seq::empty(), s))
    } else {
        match spec_dec_owned_ref(s) {
            None => None,
            Some((x, r)) => match spec_dec_owned_refs(r, (n - 1) as nat) {
                None => None,
                Some((xs, r2)) => Some((seq![x] + xs, r2)),
            },
        }
    }
}

pub proof fn lemma_dec_enc_owned_refs(s: Seq<OwnedRef>, rest: Seq<u8>)
    ensures
        spec_dec_owned_refs(spec_enc_owned_refs(s) + rest, s.len()) == Some((s, rest)),
    decreases s.len(),
{
    if s.len() == 0 {
        assert(spec_enc_owned_refs(s) + rest =~= rest);
        assert(s =~= Seq::<OwnedRef>::empty());
    } else {
        assert(spec_enc_owned_refs(s) + rest =~= spec_enc_owned_ref(s[0]) + (spec_enc_owned_refs(
            s.drop_first(),
        ) + rest));
        lemma_dec_enc_owned_ref(s[0], spec_enc_owned_refs(s.drop_first()) + rest);
        lemma_dec_enc_owned_refs(s.drop_first(), rest);
        assert(seq![s[0]] + s.drop_first() =~= s);
    }
}

fn read_owned_refs(b: &Vec<u8>, pos: usize, n: u64) -> (r: Result<
    (Vec<OwnedRef>, usize),
    DecodeError,
>)
    requires
        pos <= b.len(),
    ensures
        match r {
            Ok((x, end)) => pos <= end <= b@.len() && spec_dec_owned_refs(
                b@.skip(pos as int),
                n as nat,
            ) == Some((x@, b@.skip(end as int))),
            Err(_) => spec_dec_owned_refs(b@.skip(pos as int), n as nat) is None,
        },
    decreases n,
{
    if n == 0 {
        let empty: Vec<OwnedRef> = Vec::new();
        proof {
            assert(empty@ =~= Seq::<OwnedRef>::empty());
        }
        Ok((empty, pos))
    } else {
        let (x, p1) = match read_owned_ref(b, pos) {
            Ok(v) => v,
            Err(e) => {
                return Err(e);
            },
        };
        let (mut xs, p2) = match read_owned_refs(b, p1, n - 1) {
            Ok(v) => v,
            Err(e) => {
                return Err(e);
            },
        };
        let ghost tail = xs@;
        xs.insert(0, x);
        proof {
            assert(xs@ =~= seq![x] + tail);
        }
        Ok((xs, p2))
    }
}

fn emit_owned_refs(out: &mut Vec<u8>, v: &Vec<OwnedRef>, i: usize)
    requires
        i <= v.len(),
    ensures
        final(out)@ == old(out)@ + spec_enc_owned_refs(v@.skip(i as int)),
    decreases v@.len() - i,
{
    if i < v.len() {
        emit_owned_ref(out, &v[i]);
        emit_owned_refs(out, v, i + 1);
        proof {
            assert(v@.skip(i as int)[0] == v@[i as int]);
            assert(v@.skip(i as int).drop_first() =~= v@.skip(i as int + 1));
            assert(out@ =~= old(out)@ + spec_enc_owned_refs(v@.skip(i as int)));
        }
    } else {
        proof {
            assert(v@.skip(i as int) =~= Seq::<OwnedRef>::empty());
            assert(out@ =~= old(out)@ + spec_enc_owned_refs(v@.skip(i as int)));
        }
    }
}

/// A counted list of owned references: the count, then the elements.
pub open spec fn spec_enc_owned_ref_vec(s: Seq<OwnedRef>) -> Seq<u8>
    recommends
        s.len() <= u64::MAX,
{
    spec_enc_u64(s.len() as u64) + spec_enc_owned_refs(s)
}

pub open spec fn spec_dec_owned_ref_vec(s: Seq<u8>) -> Option<(Seq<OwnedRef>, Seq<u8>)> {
    match spec_dec_u64(s) {
        None => None,
        Some((n, r)) => spec_dec_owned_refs(r, n as nat),
    }
}

pub proof fn lemma_dec_enc_owned_ref_vec(s: Seq<OwnedRef>, rest: Seq<u8>)
    requires
        s.len() <= u64::MAX,
    ensures
        spec_dec_owned_ref_vec(spec_enc_owned_ref_vec(s) + rest) == Some((s, rest)),
{
    assert(spec_enc_owned_ref_vec(s) + rest =~= spec_enc_u64(s.len() as u64) + (
    spec_enc_owned_refs(s) + rest));
    lemma_dec_enc_u64(s.len() as u64, spec_enc_owned_refs(s) + rest);
    lemma_dec_enc_owned_refs(s, rest);
}

fn read_owned_ref_vec(b: &Vec<u8>, pos: usize) -> (r: Result<(Vec<OwnedRef>, usize), DecodeError>)
    requires
        pos <= b.len(),
    ensures
        match r {
            Ok((x, end)) => pos <= end <= b@.len() && spec_dec_owned_ref_vec(b@.skip(pos as int))
                == Some((x@, b@.skip(end as int))),
            Err(_) => spec_dec_owned_ref_vec(b@.skip(pos as int)) is None,
        },
{
    let (n, p1) = match read_u64(b, pos) {
        Ok(v) => v,
        Err(e) => {
            return Err(e);
        },
    };
    read_owned_refs(b, p1, n)
}

fn emit_owned_ref_vec(out: &mut Vec<u8>, v: &Vec<OwnedRef>)
    ensures
        final(out)@ == old(out)@ + spec_enc_owned_ref_vec(v@),
{
    emit_u64(out, v.len() as u64);
    emit_owned_refs(out, v, 0);
    proof {
        assert(v@.skip(0) =~= v@);
        assert(out@ =~= old(out)@ + spec_enc_owned_ref_vec(v@));
    }
}

/// A sequence of object references, first to last.
pub open spec fn spec_enc_refs(s: Seq<ObjectRef>) -> Seq<u8>
    decreases s.len(),
{
    if s.len() == 0 {
        Seq::empty()
    } else {
        spec_enc_ref(s[0]) + spec_enc_refs(s.drop_first())
    }
}

pub open spec fn spec_dec_refs(s: Seq<u8>, n: nat) -> Option<(Seq<ObjectRef>, Seq<u8>)>
    decreases n,
{
    if n == 0 {
        Some((Seq::empty(), s))
    } else {
        match spec_dec_ref(s) {
            None => None,
            Some((x, r)) => match spec_dec_refs(r, (n - 1) as nat) {
                None => None,
                Some((xs, r2)) => Some((seq![x] + xs, r2)),
            },
        }
    }
}

pub proof fn lemma_dec_enc_refs(s: Seq<ObjectRef>, rest: Seq<u8>)
    ensures
        spec_dec_refs(spec_enc_refs(s) + rest, s.len()) == Some((s, rest)),
    decreases s.len(),
{
    if s.len() == 0 {
        assert(spec_enc_refs(s) + rest =~= rest);
        assert(s =~= Seq::<ObjectRef>::empty());
    } else {
        assert(spec_enc_refs(s) + rest =~= spec_enc_ref(s[0]) + (spec_enc_refs(s.drop_first())
            + rest));
        lemma_dec_enc_ref(s[0], spec_enc_refs(s.drop_first()) + rest);
        lemma_dec_enc_refs(s.drop_first(), rest);
        assert(seq![s[0]] + s.drop_first() =~= s);
    }
}

fn read_refs(b: &Vec<u8>, pos: usize, n: u64) -> (r: Result<(Vec<ObjectRef>, usize), DecodeError>)
    requires
        pos <= b.len(),
    ensures
        match r {
            Ok((x, end)) => pos <= end <= b@.len() && spec_dec_refs(b@.skip(pos as int), n as nat)
                == Some((x@, b@.skip(end as int))),
            Err(_) => spec_dec_refs(b@.skip(pos as int), n as nat) is None,
        },
    decreases n,
{
    if n == 0 {
        let empty: Vec<ObjectRef> = Vec::new();
        proof {
            assert(empty@ =~= Seq::<ObjectRef>::empty());
        }
        Ok((empty, pos))
    } else {
        let (x, p1) = match read_ref(b, pos) {
            Ok(v) => v,
            Err(e) => {
                return Err(e);
            },
        };
        let (mut xs, p2) = match read_refs(b, p1, n - 1) {
            Ok(v) => v,
            Err(e) => {
                return Err(e);
            },
        };
        let ghost tail = xs@;
        xs.insert(0, x);
        proof {
            assert(xs@ =~= seq![x] + tail);
        }
        Ok((xs, p2))
    }
}

fn emit_refs(out: &mut Vec<u8>, v: &Vec<ObjectRef>, i: usize)
    requires
        i <= v.len(),
    ensures
        final(out)@ == old(out)@ + spec_enc_refs(v@.skip(i as int)),
    decreases v@.len() - i,
{
    if i < v.len() {
        emit_ref(out, &v[i]);
        emit_refs(out, v, i + 1);
        proof {
            assert(v@.skip(i as int)[0] == v@[i as int]);
            assert(v@.skip(i as int).drop_first() =~= v@.skip(i as int + 1));
            assert(out@ =~= old(out)@ + spec_enc_refs(v@.skip(i as int)));
        }
    } else {
        proof {
            assert(v@.skip(i as int) =~= Seq::<ObjectRef>::empty());
            assert(out@ =~= old(out)@ + spec_enc_refs(v@.skip(i as int)));
        }
    }
}

/// A counted list of object references: the count, then the elements.
pub open spec fn spec_enc_ref_vec(s: Seq<ObjectRef>) -> Seq<u8>
    recommends
        s.len() <= u64::MAX,
{
    spec_enc_u64(s.len() as u64) + spec_enc_refs(s)
}

pub open spec fn spec_dec_ref_vec(s: Seq<u8>) -> Option<(Seq<ObjectRef>, Seq<u8>)> {
    match spec_dec_u64(s) {
        None => None,
        Some((n, r)) => spec_dec_refs(r, n as nat),
    }
}

pub proof fn lemma_dec_enc_ref_vec(s: Seq<ObjectRef>, rest: Seq<u8>)
    requires
        s.len() <= u64::MAX,
    ensures
        spec_dec_ref_vec(spec_enc_ref_vec(s) + rest) == Some((s, rest)),
{
    assert(spec_enc_ref_vec(s) + rest =~= spec_enc_u64(s.len() as u64) + (spec_enc_refs(s)
        + rest));
    lemma_dec_enc_u64(s.len() as u64, spec_enc_refs(s) + rest);
    lemma_dec_enc_refs(s, rest);
}

fn read_ref_vec(b: &Vec<u8>, pos: usize) -> (r: Result<(Vec<ObjectRef>, usize), DecodeError>)
    requires
        pos <= b.len(),
    ensures
        match r {
            Ok((x, end)) => pos <= end <= b@.len() && spec_dec_ref_vec(b@.skip(pos as int)) == Some(
                (x@, b@.skip(end as int)),
            ),
            Err(_) => spec_dec_ref_vec(b@.skip(pos as int)) is None,
        },
{
    let (n, p1) = match read_u64(b, pos) {
        Ok(v) => v,
        Err(e) => {
            return Err(e);
        },
    };
    read_refs(b, p1, n)
}

fn emit_ref_vec(out: &mut Vec<u8>, v: &Vec<ObjectRef>)
    ensures
        final(out)@ == old(out)@ + spec_enc_ref_vec(v@),
{
    emit_u64(out, v.len() as u64);
    emit_refs(out, v, 0);
    proof {
        assert(v@.skip(0) =~= v@);
        assert(out@ =~= old(out)@ + spec_enc_ref_vec(v@));
    }
}

/// A sequence of move calls, first to last.
pub open spec fn spec_enc_move_calls(s: Seq<MoveCallV>) -> Seq<u8>
    decreases s.len(),
{
    if s.len() == 0 {
        Seq::empty()
    } else {
        spec_enc_move_call(s[0]) + spec_enc_move_calls(s.drop_first())
    }
}

pub open spec fn spec_dec_move_calls(s: Seq<u8>, n: nat) -> Option<(Seq<MoveCallV>, Seq<u8>)>
    decreases n,
{
    if n == 0 {
        Some((Seq::empty(), s))
    } else {
        match spec_dec_move_call(s) {
            None => None,
            Some((x, r)) => match spec_dec_move_calls(r, (n - 1) as nat) {
                None => None,
                Some((xs, r2)) => Some((seq![x] + xs, r2)),
            },
        }
    }
}

pub proof fn lemma_dec_enc_move_calls(s: Seq<MoveCallV>, rest: Seq<u8>)
    requires
        forall|i: int| 0 <= i < s.len() ==> spec_move_call_ok(#[trigger] s[i]),
    ensures
        spec_dec_move_calls(spec_enc_move_calls(s) + rest, s.len()) == Some((s, rest)),
    decreases s.len(),
{
    if s.len() == 0 {
        assert(spec_enc_move_calls(s) + rest =~= rest);
        assert(s =~= Seq::<MoveCallV>::empty());
    } else {
        assert(spec_enc_move_calls(s) + rest =~= spec_enc_move_call(s[0]) + (spec_enc_move_calls(
            s.drop_first(),
        ) + rest));
        lemma_dec_enc_move_call(s[0], spec_enc_move_calls(s.drop_first()) + rest);
        assert(forall|i: int|
            0 <= i < s.drop_first().len() ==> spec_move_call_ok(#[trigger] s.drop_first()[i]));
        lemma_dec_enc_move_calls(s.drop_first(), rest);
        assert(seq![s[0]] + s.drop_first() =~= s);
    }
}

fn read_move_calls(b: &Vec<u8>, pos: usize, n: u64) -> (r: Result<
    (Vec<MoveCallRec>, usize),
    DecodeError,
>)
    requires
        pos <= b.len(),
    ensures
        match r {
            Ok((x, end)) => pos <= end <= b@.len() && spec_dec_move_calls(
                b@.skip(pos as int),
                n as nat,
            ) == Some((x.deep_view(), b@.skip(end as int))),
            Err(_) => spec_dec_move_calls(b@.skip(pos as int), n as nat) is None,
        },
    decreases n,
{
    if n == 0 {
        let empty: Vec<MoveCallRec> = Vec::new();
        proof {
            assert(empty.deep_view() =~= Seq::<MoveCallV>::empty());
        }
        Ok((empty, pos))
    } else {
        let (x, p1) = match read_move_call(b, pos) {
            Ok(v) => v,
            Err(e) => {
                return Err(e);
            },
        };
        let (mut xs, p2) = match read_move_calls(b, p1, n - 1) {
            Ok(v) => v,
            Err(e) => {
                return Err(e);
            },
        };
        let ghost tail = xs@;
        let ghost xv = x.deep_view();
        xs.insert(0, x);
        proof {
            assert forall|j: int| 0 <= j < xs@.len() implies xs.deep_view()[j] == (seq![xv]
                + deep_view_seq(tail))[j] by {
                assert(xs.deep_view()[j] == xs@[j].deep_view());
                if j == 0 {
                    assert(xs@[0] == tail.insert(0, xs@[0])[0]);
                } else {
                    assert(xs@[j] == tail[j - 1]);
                    assert(deep_view_seq(tail)[j - 1] == tail[j - 1].deep_view());
                }
            }
            assert(xs.deep_view() =~~= seq![xv] + deep_view_seq(tail));
            assert(deep_view_seq(tail) =~~= Seq::new(tail.len(), |i: int| tail[i].deep_view()));
        }
        Ok((xs, p2))
    }
}

fn emit_move_calls(out: &mut Vec<u8>, v: &Vec<MoveCallRec>, i: usize)
    requires
        i <= v.len(),
    ensures
        final(out)@ == old(out)@ + spec_enc_move_calls(v.deep_view().skip(i as int)),
    decreases v@.len() - i,
{
    if i < v.len() {
        emit_move_call(out, &v[i]);
        emit_move_calls(out, v, i + 1);
        proof {
            assert(v.deep_view().skip(i as int)[0] == v.deep_view()[i as int]);
            assert(v.deep_view()[i as int] == v@[i as int].deep_view());
            assert(v.deep_view().skip(i as int).drop_first() =~~= v.deep_view().skip(i as int + 1));
            assert(out@ =~= old(out)@ + spec_enc_move_calls(v.deep_view().skip(i as int)));
        }
    } else {
        proof {
            assert(v.deep_view().skip(i as int) =~~= Seq::<MoveCallV>::empty());
            assert(out@ =~= old(out)@ + spec_enc_move_calls(v.deep_view().skip(i as int)));
        }
    }
}

/// A counted list of move calls: the count, then the elements.
pub open spec fn spec_enc_move_call_vec(s: Seq<MoveCallV>) -> Seq<u8>
    recommends
        s.len() <= u64::MAX,
{
    spec_enc_u64(s.len() as u64) + spec_enc_move_calls(s)
}

pub open spec fn spec_dec_move_call_vec(s: Seq<u8>) -> Option<(Seq<MoveCallV>, Seq<u8>)> {
    match spec_dec_u64(s) {
        None => None,
        Some((n, r)) => spec_dec_move_calls(r, n as nat),
    }
}

pub proof fn lemma_dec_enc_move_call_vec(s: Seq<MoveCallV>, rest: Seq<u8>)
    requires
        s.len() <= u64::MAX,
        forall|i: int| 0 <= i < s.len() ==> spec_move_call_ok(#[trigger] s[i]),
    ensures
        spec_dec_move_call_vec(spec_enc_move_call_vec(s) + rest) == Some((s, rest)),
{
    assert(spec_enc_move_call_vec(s) + rest =~= spec_enc_u64(s.len() as u64) + (
    spec_enc_move_calls(s) + rest));
    lemma_dec_enc_u64(s.len() as u64, spec_enc_move_calls(s) + rest);
    lemma_dec_enc_move_calls(s, rest);
}

fn read_move_call_vec(b: &Vec<u8>, pos: usize) -> (r: Result<(Vec<MoveCallRec>, usize), DecodeError>)
    requires
        pos <= b.len(),
    ensures
        match r {
            Ok((x, end)) => pos <= end <= b@.len() && spec_dec_move_call_vec(b@.skip(pos as int))
                == Some((x.deep_view(), b@.skip(end as int))),
            Err(_) => spec_dec_move_call_vec(b@.skip(pos as int)) is None,
        },
{
    let (n, p1) = match read_u64(b, pos) {
        Ok(v) => v,
        Err(e) => {
            return Err(e);
        },
    };
    read_move_calls(b, p1, n)
}

fn emit_move_call_vec(out: &mut Vec<u8>, v: &Vec<MoveCallRec>)
    ensures
        final(out)@ == old(out)@ + spec_enc_move_call_vec(v.deep_view()),
{
    emit_u64(out, v.len() as u64);
    emit_move_calls(out, v, 0);
    proof {
        assert(v.deep_view().skip(0) =~~= v.deep_view());
        assert(out@ =~= old(out)@ + spec_enc_move_call_vec(v.deep_view()));
    }
}


/// An effects record: the six transition lists, then the gas summary.
pub open spec fn spec_enc_effects(e: TransactionEffectsV) -> Seq<u8> {
    spec_enc_owned_ref_vec(e.created) + spec_enc_owned_ref_vec(e.mutated) + spec_enc_ref_vec(
        e.deleted,
    ) + spec_enc_ref_vec(e.wrapped) + spec_enc_owned_ref_vec(e.unwrapped) + spec_enc_ref_vec(
        e.unwrapped_then_deleted,
    ) + spec_enc_gas(e.gas)
}

pub open spec fn spec_dec_effects(s: Seq<u8>) -> Option<(TransactionEffectsV, Seq<u8>)> {
    match spec_dec_owned_ref_vec(s) {
        None => None,
        Some((created, s1)) => match spec_dec_owned_ref_vec(s1) {
            None => None,
            Some((mutated, s2)) => match spec_dec_ref_vec(s2) {
                None => None,
                Some((deleted, s3)) => match spec_dec_ref_vec(s3) {
                    None => None,
                    Some((wrapped, s4)) => match spec_dec_owned_ref_vec(s4) {
                        None => None,
                        Some((unwrapped, s5)) => match spec_dec_ref_vec(s5) {
                            None => None,
                            Some((unwrapped_then_deleted, s6)) => match spec_dec_gas(s6) {
                                None => None,
                                Some((gas, s7)) => Some(
                                    (
                                        TransactionEffectsV {
                                            created,
                                            mutated,
                                            deleted,
                                            wrapped,
                                            unwrapped,
                                            unwrapped_then_deleted,
                                            gas,
                                        },
                                        s7,
                                    ),
                                ),
                            },
                        },
                    },
                },
            },
        },
    }
}

/// True when every transition list fits its count prefix.
pub open spec fn spec_effects_ok(e: TransactionEffectsV) -> bool {
    &&& e.created.len() <= u64::MAX
    &&& e.mutated.len() <= u64::MAX
    &&& e.deleted.len() <= u64::MAX
    &&& e.wrapped.len() <= u64::MAX
    &&& e.unwrapped.len() <= u64::MAX
    &&& e.unwrapped_then_deleted.len() <= u64::MAX
}

pub proof fn lemma_dec_enc_effects(e: TransactionEffectsV, rest: Seq<u8>)
    requires
        spec_effects_ok(e),
    ensures
        spec_dec_effects(spec_enc_effects(e) + rest) == Some((e, rest)),
{
    let t6 = spec_enc_gas(e.gas) + rest;
    let t5 = spec_enc_ref_vec(e.unwrapped_then_deleted) + t6;
    let t4 = spec_enc_owned_ref_vec(e.unwrapped) + t5;
    let t3 = spec_enc_ref_vec(e.wrapped) + t4;
    let t2 = spec_enc_ref_vec(e.deleted) + t3;
    let t1 = spec_enc_owned_ref_vec(e.mutated) + t2;
    assert(spec_enc_effects(e) + rest =~= spec_enc_owned_ref_vec(e.created) + t1);
    lemma_dec_enc_owned_ref_vec(e.created, t1);
    lemma_dec_enc_owned_ref_vec(e.mutated, t2);
    lemma_dec_enc_ref_vec(e.deleted, t3);
    lemma_dec_enc_ref_vec(e.wrapped, t4);
    lemma_dec_enc_owned_ref_vec(e.unwrapped, t5);
    lemma_dec_enc_ref_vec(e.unwrapped_then_deleted, t6);
    lemma_dec_enc_gas(e.gas, rest);
}

fn read_effects(b: &Vec<u8>, pos: usize) -> (r: Result<(TransactionEffects, usize), DecodeError>)
    requires
        pos <= b.len(),
    ensures
        match r {
            Ok((x, end)) => pos <= end <= b@.len() && spec_dec_effects(b@.skip(pos as int)) == Some(
                (x.deep_view(), b@.skip(end as int)),
            ),
            Err(_) => spec_dec_effects(b@.skip(pos as int)) is None,
        },
{
    let (created, p1) = match read_owned_ref_vec(b, pos) {
        Ok(v) => v,
        Err(e) => {
            return Err(e);
        },
    };
    let (mutated, p2) = match read_owned_ref_vec(b, p1) {
        Ok(v) => v,
        Err(e) => {
            return Err(e);
        },
    };
    let (deleted, p3) = match read_ref_vec(b, p2) {
        Ok(v) => v,
        Err(e) => {
            return Err(e);
        },
    };
    let (wrapped, p4) = match read_ref_vec(b, p3) {
        Ok(v) => v,
        Err(e) => {
            return Err(e);
        },
    };
    let (unwrapped, p5) = match read_owned_ref_vec(b, p4) {
        Ok(v) => v,
        Err(e) => {
            return Err(e);
        },
    };
    let (unwrapped_then_deleted, p6) = match read_ref_vec(b, p5) {
        Ok(v) => v,
        Err(e) => {
            return Err(e);
        },
    };
    let (gas, p7) = match read_gas(b, p6) {
        Ok(v) => v,
        Err(e) => {
            return Err(e);
        },
    };
    Ok(
        (
            TransactionEffects {
                created,
                mutated,
                deleted,
                wrapped,
                unwrapped,
                unwrapped_then_deleted,
                gas,
            },
            p7,
        ),
    )
}

fn emit_effects(out: &mut Vec<u8>, e: &TransactionEffects)
    ensures
        final(out)@ == old(out)@ + spec_enc_effects(e.deep_view()),
{
    emit_owned_ref_vec(out, &e.created);
    emit_owned_ref_vec(out, &e.mutated);
    emit_ref_vec(out, &e.deleted);
    emit_ref_vec(out, &e.wrapped);
    emit_owned_ref_vec(out, &e.unwrapped);
    emit_ref_vec(out, &e.unwrapped_then_deleted);
    emit_gas(out, &e.gas);
    proof {
        assert(out@ =~= old(out)@ + spec_enc_effects(e.deep_view()));
    }
}

/// A transaction record: the sender, then the recorded move calls.
pub open spec fn spec_enc_tx(t: TransactionDataV) -> Seq<u8> {
    spec_enc_u64(t.sender) + spec_enc_move_call_vec(t.move_calls)
}

pub open spec fn spec_dec_tx(s: Seq<u8>) -> Option<(TransactionDataV, Seq<u8>)> {
    match spec_dec_u64(s) {
        None => None,
        Some((sender, s1)) => match spec_dec_move_call_vec(s1) {
            None => None,
            Some((move_calls, s2)) => Some((TransactionDataV { sender, move_calls }, s2)),
        },
    }
}

/// True when the call list and every name fit their length prefixes.
pub open spec fn spec_tx_ok(t: TransactionDataV) -> bool {
    &&& t.move_calls.len() <= u64::MAX
    &&& forall|i: int| 0 <= i < t.move_calls.len() ==> spec_move_call_ok(#[trigger] t.move_calls[i])
}

pub proof fn lemma_dec_enc_tx(t: TransactionDataV, rest: Seq<u8>)
    requires
        spec_tx_ok(t),
    ensures
        spec_dec_tx(spec_enc_tx(t) + rest) == Some((t, rest)),
{
    assert(spec_enc_tx(t) + rest =~= spec_enc_u64(t.sender) + (spec_enc_move_call_vec(t.move_calls)
        + rest));
    lemma_dec_enc_u64(t.sender, spec_enc_move_call_vec(t.move_calls) + rest);
    lemma_dec_enc_move_call_vec(t.move_calls, rest);
}

fn read_tx(b: &Vec<u8>, pos: usize) -> (r: Result<(TransactionData, usize), DecodeError>)
    requires
        pos <= b.len(),
    ensures
        match r {
            Ok((x, end)) => pos <= end <= b@.len() && spec_dec_tx(b@.skip(pos as int)) == Some(
                (x.deep_view(), b@.skip(end as int)),
            ),
            Err(_) => spec_dec_tx(b@.skip(pos as int)) is None,
        },
{
    let (sender, p1) = match read_u64(b, pos) {
        Ok(v) => v,
        Err(e) => {
            return Err(e);
        },
    };
    let (move_calls, p2) = match read_move_call_vec(b, p1) {
        Ok(v) => v,
        Err(e) => {
            return Err(e);
        },
    };
    Ok((TransactionData { sender, move_calls }, p2))
}

fn emit_tx(out: &mut Vec<u8>, t: &TransactionData)
    ensures
        final(out)@ == old(out)@ + spec_enc_tx(t.deep_view()),
{
    emit_u64(out, t.sender);
    emit_move_call_vec(out, &t.move_calls);
    proof {
        assert(out@ =~= old(out)@ + spec_enc_tx(t.deep_view()));
    }
}

/// The per-transaction metadata: timestamp, checkpoint, sender, digest.
pub open spec fn spec_enc_meta(m: TxInfoMetadata) -> Seq<u8> {
    spec_enc_u64(m.message_process_timestamp_ms) + spec_enc_u64(m.checkpoint_id) + spec_enc_u64(
        m.sender,
    ) + spec_enc_u64(m.tx_digest)
}

pub open spec fn spec_dec_meta(s: Seq<u8>) -> Option<(TxInfoMetadata, Seq<u8>)> {
    match spec_dec_u64(s) {
        None => None,
        Some((message_process_timestamp_ms, s1)) => match spec_dec_u64(s1) {
            None => None,
            Some((checkpoint_id, s2)) => match spec_dec_u64(s2) {
                None => None,
                Some((sender, s3)) => match spec_dec_u64(s3) {
                    None => None,
                    Some((tx_digest, s4)) => Some(
                        (
                            TxInfoMetadata {
                                message_process_timestamp_ms,
                                checkpoint_id,
                                sender,
                                tx_digest,
                            },
                            s4,
                        ),
                    ),
                },
            },
        },
    }
}

pub proof fn lemma_dec_enc_meta(m: TxInfoMetadata, rest: Seq<u8>)
    ensures
        spec_dec_meta(spec_enc_meta(m) + rest) == Some((m, rest)),
{
    let t3 = spec_enc_u64(m.tx_digest) + rest;
    let t2 = spec_enc_u64(m.sender) + t3;
    let t1 = spec_enc_u64(m.checkpoint_id) + t2;
    assert(spec_enc_meta(m) + rest =~= spec_enc_u64(m.message_process_timestamp_ms) + t1);
    lemma_dec_enc_u64(m.message_process_timestamp_ms, t1);
    lemma_dec_enc_u64(m.checkpoint_id, t2);
    lemma_dec_enc_u64(m.sender, t3);
    lemma_dec_enc_u64(m.tx_digest, rest);
}

fn read_meta(b: &Vec<u8>, pos: usize) -> (r: Result<(TxInfoMetadata, usize), DecodeError>)
    requires
        pos <= b.len(),
    ensures
        match r {
            Ok((x, end)) => pos <= end <= b@.len() && spec_dec_meta(b@.skip(pos as int)) == Some(
                (x, b@.skip(end as int)),
            ),
            Err(_) => spec_dec_meta(b@.skip(pos as int)) is None,
        },
{
    let (message_process_timestamp_ms, p1) = match read_u64(b, pos) {
        Ok(v) => v,
        Err(e) => {
            return Err(e);
        },
    };
    let (checkpoint_id, p2) = match read_u64(b, p1) {
        Ok(v) => v,
        Err(e) => {
            return Err(e);
        },
    };
    let (sender, p3) = match read_u64(b, p2) {
        Ok(v) => v,
        Err(e) => {
            return Err(e);
        },
    };
    let (tx_digest, p4) = match read_u64(b, p3) {
        Ok(v) => v,
        Err(e) => {
            return Err(e);
        },
    };
    Ok(
        (
            TxInfoMetadata { message_process_timestamp_ms, checkpoint_id, sender, tx_digest },
            p4,
        ),
    )
}

fn emit_meta(out: &mut Vec<u8>, m: &TxInfoMetadata)
    ensures
        final(out)@ == old(out)@ + spec_enc_meta(*m),
{
    emit_u64(out, m.message_process_timestamp_ms);
    emit_u64(out, m.checkpoint_id);
    emit_u64(out, m.sender);
    emit_u64(out, m.tx_digest);
    proof {
        assert(out@ =~= old(out)@ + spec_enc_meta(*m));
    }
}

/// An event body: a tag byte, then the variant's data.
pub open spec fn spec_enc_data(d: TxInfoDataV) -> Seq<u8> {
    match d {
        TxInfoDataV::String(t) => seq![0u8] + spec_enc_string(t),
        TxInfoDataV::PackagePublish(o) => seq![1u8] + spec_enc_obj(o),
        TxInfoDataV::ObjectChangeLight(c) => seq![2u8] + spec_enc_status(c),
        TxInfoDataV::ObjectChangeRaw(c, o) => seq![3u8] + spec_enc_status(c) + spec_enc_opt_obj(o),
        TxInfoDataV::MoveCall(p, m, f) => seq![4u8] + spec_enc_u64(p) + spec_enc_string(m)
            + spec_enc_string(f),
        TxInfoDataV::Transaction(t) => seq![5u8] + spec_enc_tx(t),
        TxInfoDataV::Effects(e) => seq![6u8] + spec_enc_effects(e),
        TxInfoDataV::GasCostSummary(g) => seq![7u8] + spec_enc_gas(g),
    }
}

pub open spec fn spec_dec_data(s: Seq<u8>) -> Option<(TxInfoDataV, Seq<u8>)> {
    match spec_dec_u8(s) {
        None => None,
        Some((tag, s1)) => {
            if tag == 0 {
                match spec_dec_string(s1) {
                    None => None,
                    Some((t, s2)) => Some((TxInfoDataV::String(t), s2)),
                }
            } else if tag == 1 {
                match spec_dec_obj(s1) {
                    None => None,
                    Some((o, s2)) => Some((TxInfoDataV::PackagePublish(o), s2)),
                }
            } else if tag == 2 {
                match spec_dec_status(s1) {
                    None => None,
                    Some((c, s2)) => Some((TxInfoDataV::ObjectChangeLight(c), s2)),
                }
            } else if tag == 3 {
                match spec_dec_status(s1) {
                    None => None,
                    Some((c, s2)) => match spec_dec_opt_obj(s2) {
                        None => None,
                        Some((o, s3)) => Some((TxInfoDataV::ObjectChangeRaw(c, o), s3)),
                    },
                }
            } else if tag == 4 {
                match spec_dec_u64(s1) {
                    None => None,
                    Some((p, s2)) => match spec_dec_string(s2) {
                        None => None,
                        Some((m, s3)) => match spec_dec_string(s3) {
                            None => None,
                            Some((f, s4)) => Some((TxInfoDataV::MoveCall(p, m, f), s4)),
                        },
                    },
                }
            } else if tag == 5 {
                match spec_dec_tx(s1) {
                    None => None,
                    Some((t, s2)) => Some((TxInfoDataV::Transaction(t), s2)),
                }
            } else if tag == 6 {
                match spec_dec_effects(s1) {
                    None => None,
                    Some((e, s2)) => Some((TxInfoDataV::Effects(e), s2)),
                }
            } else if tag == 7 {
                match spec_dec_gas(s1) {
                    None => None,
                    Some((g, s2)) => Some((TxInfoDataV::GasCostSummary(g), s2)),
                }
            } else {
                None
            }
        },
    }
}

/// True when every length in the body fits its prefix: a machine limit,
/// satisfied by every value an executable built.
pub open spec fn spec_data_ok(d: TxInfoDataV) -> bool {
    match d {
        TxInfoDataV::String(t) => encode_utf8(t).len() <= u64::MAX,
        TxInfoDataV::PackagePublish(o) => spec_obj_ok(o),
        TxInfoDataV::ObjectChangeLight(_) => true,
        TxInfoDataV::ObjectChangeRaw(_, o) => spec_opt_obj_ok(o),
        TxInfoDataV::MoveCall(_, m, f) => encode_utf8(m).len() <= u64::MAX && encode_utf8(f).len()
            <= u64::MAX,
        TxInfoDataV::Transaction(t) => spec_tx_ok(t),
        TxInfoDataV::Effects(e) => spec_effects_ok(e),
        TxInfoDataV::GasCostSummary(_) => true,
    }
}

pub proof fn lemma_dec_enc_data(d: TxInfoDataV, rest: Seq<u8>)
    requires
        spec_data_ok(d),
    ensures
        spec_dec_data(spec_enc_data(d) + rest) == Some((d, rest)),
{
    let s = spec_enc_data(d) + rest;
    match d {
        TxInfoDataV::String(t) => {
            assert(s =~= seq![0u8] + (spec_enc_string(t) + rest));
            assert(s[0] == 0u8);
            assert(s.skip(1) =~= spec_enc_string(t) + rest);
            lemma_dec_enc_string(t, rest);
        },
        TxInfoDataV::PackagePublish(o) => {
            assert(s =~= seq![1u8] + (spec_enc_obj(o) + rest));
            assert(s[0] == 1u8);
            assert(s.skip(1) =~= spec_enc_obj(o) + rest);
            lemma_dec_enc_obj(o, rest);
        },
        TxInfoDataV::ObjectChangeLight(c) => {
            assert(s =~= seq![2u8] + (spec_enc_status(c) + rest));
            assert(s[0] == 2u8);
            assert(s.skip(1) =~= spec_enc_status(c) + rest);
            lemma_dec_enc_status(c, rest);
        },
        TxInfoDataV::ObjectChangeRaw(c, o) => {
            assert(s =~= seq![3u8] + (spec_enc_status(c) + (spec_enc_opt_obj(o) + rest)));
            assert(s[0] == 3u8);
            assert(s.skip(1) =~= spec_enc_status(c) + (spec_enc_opt_obj(o) + rest));
            lemma_dec_enc_status(c, spec_enc_opt_obj(o) + rest);
            lemma_dec_enc_opt_obj(o, rest);
        },
        TxInfoDataV::MoveCall(p, m, f) => {
            let t2 = spec_enc_string(f) + rest;
            let t1 = spec_enc_string(m) + t2;
            assert(s =~= seq![4u8] + (spec_enc_u64(p) + t1));
            assert(s[0] == 4u8);
            assert(s.skip(1) =~= spec_enc_u64(p) + t1);
            lemma_dec_enc_u64(p, t1);
            lemma_dec_enc_string(m, t2);
            lemma_dec_enc_string(f, rest);
        },
        TxInfoDataV::Transaction(t) => {
            assert(s =~= seq![5u8] + (spec_enc_tx(t) + rest));
            assert(s[0] == 5u8);
            assert(s.skip(1) =~= spec_enc_tx(t) + rest);
            lemma_dec_enc_tx(t, rest);
        },
        TxInfoDataV::Effects(e) => {
            assert(s =~= seq![6u8] + (spec_enc_effects(e) + rest));
            assert(s[0] == 6u8);
            assert(s.skip(1) =~= spec_enc_effects(e) + rest);
            lemma_dec_enc_effects(e, rest);
        },
        TxInfoDataV::GasCostSummary(g) => {
            assert(s =~= seq![7u8] + (spec_enc_gas(g) + rest));
            assert(s[0] == 7u8);
            assert(s.skip(1) =~= spec_enc_gas(g) + rest);
            lemma_dec_enc_gas(g, rest);
        },
    }
}

fn read_data(b: &Vec<u8>, pos: usize) -> (r: Result<(TxInfoData, usize), DecodeError>)
    requires
        pos <= b.len(),
    ensures
        match r {
            Ok((x, end)) => pos <= end <= b@.len() && spec_dec_data(b@.skip(pos as int)) == Some(
                (x.deep_view(), b@.skip(end as int)),
            ),
            Err(_) => spec_dec_data(b@.skip(pos as int)) is None,
        },
{
    let (tag, p1) = match read_u8(b, pos) {
        Ok(v) => v,
        Err(e) => {
            return Err(e);
        },
    };
    if tag == 0 {
        let (t, p2) = match read_string(b, p1) {
            Ok(v) => v,
            Err(e) => {
                return Err(e);
            },
        };
        Ok((TxInfoData::String(t), p2))
    } else if tag == 1 {
        let (o, p2) = match read_obj(b, p1) {
            Ok(v) => v,
            Err(e) => {
                return Err(e);
            },
        };
        Ok((TxInfoData::PackagePublish(o), p2))
    } else if tag == 2 {
        let (c, p2) = match read_status(b, p1) {
            Ok(v) => v,
            Err(e) => {
                return Err(e);
            },
        };
        Ok((TxInfoData::ObjectChangeLight(c), p2))
    } else if tag == 3 {
        let (c, p2) = match read_status(b, p1) {
            Ok(v) => v,
            Err(e) => {
                return Err(e);
            },
        };
        let (o, p3) = match read_opt_obj(b, p2) {
            Ok(v) => v,
            Err(e) => {
                return Err(e);
            },
        };
        Ok((TxInfoData::ObjectChangeRaw(c, o), p3))
    } else if tag == 4 {
        let (p, p2) = match read_u64(b, p1) {
            Ok(v) => v,
            Err(e) => {
                return Err(e);
            },
        };
        let (m, p3) = match read_string(b, p2) {
            Ok(v) => v,
            Err(e) => {
                return Err(e);
            },
        };
        let (f, p4) = match read_string(b, p3) {
            Ok(v) => v,
            Err(e) => {
                return Err(e);
            },
        };
        Ok((TxInfoData::MoveCall(p, m, f), p4))
    } else if tag == 5 {
        let (t, p2) = match read_tx(b, p1) {
            Ok(v) => v,
            Err(e) => {
                return Err(e);
            },
        };
        Ok((TxInfoData::Transaction(t), p2))
    } else if tag == 6 {
        let (e, p2) = match read_effects(b, p1) {
            Ok(v) => v,
            Err(er) => {
                return Err(er);
            },
        };
        Ok((TxInfoData::Effects(e), p2))
    } else if tag == 7 {
        let (g, p2) = match read_gas(b, p1) {
            Ok(v) => v,
            Err(e) => {
                return Err(e);
            },
        };
        Ok((TxInfoData::GasCostSummary(g), p2))
    } else {
        Err(DecodeError::InvalidTag)
    }
}

fn emit_data(out: &mut Vec<u8>, d: &TxInfoData)
    ensures
        final(out)@ == old(out)@ + spec_enc_data(d.deep_view()),
{
    match d {
        TxInfoData::String(t) => {
            out.push(0u8);
            emit_string(out, t);
        },
        TxInfoData::PackagePublish(o) => {
            out.push(1u8);
            emit_obj(out, o);
        },
        TxInfoData::ObjectChangeLight(c) => {
            out.push(2u8);
            emit_status(out, c);
        },
        TxInfoData::ObjectChangeRaw(c, o) => {
            out.push(3u8);
            emit_status(out, c);
            emit_opt_obj(out, o);
        },
        TxInfoData::MoveCall(p, m, f) => {
            out.push(4u8);
            emit_u64(out, *p);
            emit_string(out, m);
            emit_string(out, f);
        },
        TxInfoData::Transaction(t) => {
            out.push(5u8);
            emit_tx(out, t);
        },
        TxInfoData::Effects(e) => {
            out.push(6u8);
            emit_effects(out, e);
        },
        TxInfoData::GasCostSummary(g) => {
            out.push(7u8);
            emit_gas(out, g);
        },
    }
    proof {
        assert(out@ =~= old(out)@ + spec_enc_data(d.deep_view()));
    }
}

/// A payload envelope: the metadata, then the event body.
pub open spec fn spec_enc_payload(p: NodeStreamPayloadV) -> Seq<u8> {
    spec_enc_meta(p.metadata) + spec_enc_data(p.data)
}

pub open spec fn spec_dec_payload(s: Seq<u8>) -> Option<(NodeStreamPayloadV, Seq<u8>)> {
    match spec_dec_meta(s) {
        None => None,
        Some((metadata, s1)) => match spec_dec_data(s1) {
            None => None,
            Some((data, s2)) => Some((NodeStreamPayloadV { metadata, data }, s2)),
        },
    }
}

/// True when every length in the envelope fits its prefix: a machine
/// limit, satisfied by every value an executable built.
pub open spec fn spec_payload_ok(p: NodeStreamPayloadV) -> bool {
    spec_data_ok(p.data)
}

pub proof fn lemma_dec_enc_payload(p: NodeStreamPayloadV, rest: Seq<u8>)
    requires
        spec_payload_ok(p),
    ensures
        spec_dec_payload(spec_enc_payload(p) + rest) == Some((p, rest)),
{
    assert(spec_enc_payload(p) + rest =~= spec_enc_meta(p.metadata) + (spec_enc_data(p.data)
        + rest));
    lemma_dec_enc_meta(p.metadata, spec_enc_data(p.data) + rest);
    lemma_dec_enc_data(p.data, rest);
}

/// Law: the codec round-trips. Decoding the encoding of any
/// constructible envelope gives the envelope back, with nothing left
/// over; the only values excluded are ghost ones whose lengths exceed
/// the machine's own limits.
pub proof fn lemma_codec_round_trip(p: NodeStreamPayloadV)
    requires
        spec_payload_ok(p),
    ensures
        spec_dec_payload(spec_enc_payload(p)) == Some((p, Seq::<u8>::empty())),
{
    assert(spec_enc_payload(p) =~= spec_enc_payload(p) + Seq::<u8>::empty());
    lemma_dec_enc_payload(p, Seq::<u8>::empty());
}

fn read_payload(b: &Vec<u8>, pos: usize) -> (r: Result<(NodeStreamPayload, usize), DecodeError>)
    requires
        pos <= b.len(),
    ensures
        match r {
            Ok((x, end)) => pos <= end <= b@.len() && spec_dec_payload(b@.skip(pos as int)) == Some(
                (x.deep_view(), b@.skip(end as int)),
            ),
            Err(_) => spec_dec_payload(b@.skip(pos as int)) is None,
        },
{
    let (metadata, p1) = match read_meta(b, pos) {
        Ok(v) => v,
        Err(e) => {
            return Err(e);
        },
    };
    let (data, p2) = match read_data(b, p1) {
        Ok(v) => v,
        Err(e) => {
            return Err(e);
        },
    };
    Ok((NodeStreamPayload { metadata, data }, p2))
}

fn emit_payload(out: &mut Vec<u8>, p: &NodeStreamPayload)
    ensures
        final(out)@ == old(out)@ + spec_enc_payload(p.deep_view()),
{
    emit_meta(out, &p.metadata);
    emit_data(out, &p.data);
    proof {
        assert(out@ =~= old(out)@ + spec_enc_payload(p.deep_view()));
    }
}

impl TxInfoNodeStreamTopic {
    /// Encodes one payload envelope to its canonical wire bytes. Total:
    /// encoding a well-formed in-memory value cannot fail.
    pub fn payload_to_bytes(&self, payload: &NodeStreamPayload) -> (r: Vec<u8>)
        ensures
            r@ == spec_enc_payload(payload.deep_view()),
    {
        let mut out: Vec<u8> = Vec::new();
        emit_payload(&mut out, payload);
        proof {
            assert(out@ =~= spec_enc_payload(payload.deep_view()));
        }
        out
    }

    /// Decodes one payload envelope from wire bytes, consuming the whole
    /// input: exactly the byte sequences the encoder produces are
    /// accepted, and anything else fails with a [`DecodeError`].
    pub fn payload_from_bytes(&self, bytes: &[u8]) -> (r: Result<NodeStreamPayload, DecodeError>)
        ensures
            match r {
                Ok(p) => spec_dec_payload(bytes@) matches Some((pv, rest)) && pv == p.deep_view()
                    && rest.len() == 0,
                Err(_) => spec_dec_payload(bytes@) is None || (spec_dec_payload(bytes@) matches Some(
                    (pv, rest),
                ) && rest.len() > 0),
            },
    {
        let v: Vec<u8> = slice_to_vec(bytes);
        proof {
            assert(v@.skip(0) =~= bytes@);
        }
        match read_payload(&v, 0) {
            Ok((p, end)) => {
                if end == v.len() {
                    proof {
                        assert(v@.skip(end as int).len() == 0);
                    }
                    Ok(p)
                } else {
                    Err(DecodeError::TrailingBytes)
                }
            },
            Err(e) => Err(e),
        }
    }
}

} // verus!
