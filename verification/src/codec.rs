//! The record format of the log.
//!
//! A record is a four-byte big-endian length followed by that many payload
//! bytes. A log is records laid end to end, with nothing before, between or
//! after them.

use crate::errors::{serialize_text, Error};
use vstd::arithmetic::div_mod::{
    lemma_div_denominator, lemma_fundamental_div_mod, lemma_fundamental_div_mod_converse,
    lemma_mod_bound,
};
use vstd::prelude::*;

verus! {

/// One past the largest length that a header can hold.
pub open spec fn length_limit() -> int {
    0x1_0000_0000
}

/// The number that four header bytes spell, most significant byte first.
pub open spec fn header_value(bytes: Seq<u8>) -> int
    recommends
        bytes.len() >= 4,
{
    bytes[0] * 0x100_0000 + bytes[1] * 0x1_0000 + bytes[2] * 0x100 + bytes[3]
}

/// The four header bytes for a payload of `len` bytes. A header has room for
/// lengths below `length_limit()`; of a longer payload it holds the length
/// modulo that limit.
#[verifier::opaque]
pub open spec fn header(len: nat) -> Seq<u8> {
    let n = len as int % length_limit();
    seq![
        (n / 0x100_0000) as u8,
        (n / 0x1_0000 % 0x100) as u8,
        (n / 0x100 % 0x100) as u8,
        (n % 0x100) as u8,
    ]
}

/// The bytes of the record that carries `payload`.
pub open spec fn record(payload: Seq<u8>) -> Seq<u8> {
    header(payload.len()) + payload
}

/// The bytes of a log that holds one record for each payload, in order.
pub open spec fn log_image(payloads: Seq<Seq<u8>>) -> Seq<u8>
    decreases payloads.len(),
{
    if payloads.len() == 0 {
        Seq::empty()
    } else {
        record(payloads.first()) + log_image(payloads.drop_first())
    }
}

/// Frames a payload as one record: the length header, then the payload.
pub fn encode_record(payload: &[u8]) -> (out: Vec<u8>)
    ensures
        out@ == record(payload@),
{
    let n: u64 = (payload.len() as u64) % 0x1_0000_0000;
    let mut out: Vec<u8> = Vec::new();
    out.push((n / 0x100_0000) as u8);
    out.push((n / 0x1_0000 % 0x100) as u8);
    out.push((n / 0x100 % 0x100) as u8);
    out.push((n % 0x100) as u8);
    out.extend_from_slice(payload);
    proof {
        reveal(header);
        assert(out@ =~= record(payload@));
    }
    out
}

/// Takes in what encoding a value gave: frames the bytes as one record, or,
/// where the value did not encode, says so. `name` is the name of the value's
/// type and `detail` what the encoder said.
pub fn frame_encoded(encoded: Result<Vec<u8>, String>, name: &str) -> (out: Result<Vec<u8>, Error>)
    ensures
        match encoded {
            Ok(payload) => out matches Ok(bytes) && bytes@ == record(payload@),
            Err(detail) => {
                &&& out matches Err(e)
                &&& e is SerializeError
                &&& e.text() == serialize_text(name@, detail@)
            },
        },
{
    match encoded {
        Ok(payload) => Ok(encode_record(payload.as_slice())),
        Err(detail) => Err(Error::serialize(name, detail.as_str())),
    }
}

/// A header spells the length it was made for.
pub proof fn lemma_header_value(len: nat)
    ensures
        header(len).len() == 4,
        header_value(header(len)) == len as int % length_limit(),
{
    reveal(header);
    let n = len as int % length_limit();
    lemma_mod_bound(len as int, 0x1_0000_0000);
    lemma_value_of_digits(n);
}

/// The header for the length that four bytes spell is those four bytes.
pub proof fn lemma_header_bytes(bytes: Seq<u8>)
    requires
        bytes.len() >= 4,
    ensures
        0 <= header_value(bytes) < length_limit(),
        header(header_value(bytes) as nat) == bytes.subrange(0, 4),
{
    reveal(header);
    lemma_digits_of_value(bytes[0] as int, bytes[1] as int, bytes[2] as int, bytes[3] as int);
    let n = header_value(bytes);
    assert(header(n as nat) =~= bytes.subrange(0, 4));
}

/// A log grows at its end: the image of one more payload is the old image
/// followed by the new record.
pub proof fn lemma_log_image_push(payloads: Seq<Seq<u8>>, payload: Seq<u8>)
    ensures
        log_image(payloads.push(payload)) == log_image(payloads) + record(payload),
    decreases payloads.len(),
{
    if payloads.len() == 0 {
        let one = payloads.push(payload);
        assert(one.drop_first().len() == 0);
        assert(log_image(one.drop_first()) =~= Seq::<u8>::empty());
        assert(log_image(one) =~= record(payload));
        assert(log_image(payloads) + record(payload) =~= record(payload));
    } else {
        let longer = payloads.push(payload);
        assert(longer.first() == payloads.first());
        assert(longer.drop_first() =~= payloads.drop_first().push(payload));
        lemma_log_image_push(payloads.drop_first(), payload);
        assert(log_image(longer) =~= log_image(payloads) + record(payload));
    }
}

/// The image of a log is its first record followed by the image of the rest.
pub proof fn lemma_log_image_cons(payload: Seq<u8>, others: Seq<Seq<u8>>)
    ensures
        log_image(seq![payload] + others) == record(payload) + log_image(others),
{
    let all = seq![payload] + others;
    assert(all.first() == payload);
    assert(all.drop_first() =~= others);
}

/// Four bytes are the digits, to the base 256, of the number that they spell.
proof fn lemma_digits_of_value(b0: int, b1: int, b2: int, b3: int)
    requires
        0 <= b0 < 0x100,
        0 <= b1 < 0x100,
        0 <= b2 < 0x100,
        0 <= b3 < 0x100,
    ensures
        ({
            let n = b0 * 0x100_0000 + b1 * 0x1_0000 + b2 * 0x100 + b3;
            &&& 0 <= n < 0x1_0000_0000
            &&& n % 0x1_0000_0000 == n
            &&& n / 0x100_0000 == b0
            &&& n / 0x1_0000 % 0x100 == b1
            &&& n / 0x100 % 0x100 == b2
            &&& n % 0x100 == b3
        }),
{
    let n = b0 * 0x100_0000 + b1 * 0x1_0000 + b2 * 0x100 + b3;
    lemma_fundamental_div_mod_converse(n, 0x100_0000, b0, b1 * 0x1_0000 + b2 * 0x100 + b3);
    lemma_fundamental_div_mod_converse(n, 0x1_0000, b0 * 0x100 + b1, b2 * 0x100 + b3);
    lemma_fundamental_div_mod_converse(b0 * 0x100 + b1, 0x100, b0, b1);
    lemma_fundamental_div_mod_converse(n, 0x100, b0 * 0x1_0000 + b1 * 0x100 + b2, b3);
    lemma_fundamental_div_mod_converse(b0 * 0x1_0000 + b1 * 0x100 + b2, 0x100, b0 * 0x100 + b1, b2);
    lemma_fundamental_div_mod_converse(n, 0x1_0000_0000, 0, n);
}

/// A number below 2^32 is spelt by its four digits to the base 256.
proof fn lemma_value_of_digits(n: int)
    requires
        0 <= n < 0x1_0000_0000,
    ensures
        0 <= n / 0x100_0000 < 0x100,
        0 <= n / 0x1_0000 % 0x100 < 0x100,
        0 <= n / 0x100 % 0x100 < 0x100,
        0 <= n % 0x100 < 0x100,
        n == (n / 0x100_0000) * 0x100_0000 + (n / 0x1_0000 % 0x100) * 0x1_0000 + (n / 0x100
            % 0x100) * 0x100 + n % 0x100,
{
    let q2 = n / 0x100;
    let q1 = n / 0x1_0000;
    let q0 = n / 0x100_0000;
    lemma_fundamental_div_mod(n, 0x100);
    lemma_fundamental_div_mod(q2, 0x100);
    lemma_fundamental_div_mod(q1, 0x100);
    lemma_div_denominator(n, 0x100, 0x100);
    lemma_div_denominator(n, 0x1_0000, 0x100);
    assert(q2 / 0x100 == q1);
    assert(q1 / 0x100 == q0);
    lemma_mod_bound(n, 0x100);
    lemma_mod_bound(q2, 0x100);
    lemma_mod_bound(q1, 0x100);
    assert(n == 0x100 * q2 + n % 0x100);
    assert(q2 == 0x100 * q1 + q2 % 0x100);
    assert(q1 == 0x100 * q0 + q1 % 0x100);
    assert(0 <= q0 < 0x100);
}

} // verus!
