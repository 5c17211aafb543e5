//! Reading a log back.
//!
//! A log whose last record was cut short by a crash is still readable: the
//! complete records are kept, the rest is left out, and the cut is reported.
//! A record that is complete and does not decode is another matter: the log is
//! corrupt, and reading fails.

use crate::codec::{
    header, header_value, lemma_header_bytes, lemma_header_value, lemma_log_image_cons,
    lemma_log_image_push, length_limit, log_image, record,
};
use crate::errors::{log_parse_text, Error};
use crate::log::{lemma_log_entries_single, log_entries, replay, LogItems, TableEvent};
use crate::{Key, Value};
use vstd::prelude::*;
use vstd::slice::slice_subrange;

verus! {

/// What reading a log yields: the payloads of its complete records, and whether
/// bytes of an incomplete record followed them.
pub open spec fn parse(buf: Seq<u8>) -> (Seq<Seq<u8>>, bool)
    decreases buf.len(),
{
    if buf.len() == 0 {
        (Seq::empty(), false)
    } else if buf.len() < 4 {
        (Seq::empty(), true)
    } else {
        let size = header_value(buf);
        if buf.len() < 4 + size {
            (Seq::empty(), true)
        } else {
            let rest = parse(buf.skip(4 + size));
            (seq![buf.subrange(4, 4 + size)] + rest.0, rest.1)
        }
    }
}

/// Whether `tail` is the beginning of a record and not all of it.
pub open spec fn incomplete(tail: Seq<u8>) -> bool {
    tail.len() > 0 && (tail.len() < 4 || tail.len() < 4 + header_value(tail))
}

/// One complete record found in a log: its payload, and the number of bytes
/// of the log that follow the record.
#[derive(Debug)]
pub struct Record<'a> {
    pub payload: &'a [u8],
    pub remaining: usize,
}

/// The payloads that a list of records holds, in order.
pub open spec fn payloads_of<'a>(records: Seq<Record<'a>>) -> Seq<Seq<u8>> {
    records.map_values(|r: Record<'a>| r.payload@)
}

/// Reads a log: finds every complete record, in order, and says whether the
/// log ends in an incomplete one. Never fails: bytes that do not make up a
/// whole record are only reported.
pub fn parse_log<'a>(buffer: &'a [u8]) -> (out: (Vec<Record<'a>>, bool))
    ensures
        out.0@.len() == parse(buffer@).0.len(),
        payloads_of(out.0@) == parse(buffer@).0,
        out.1 == parse(buffer@).1,
        forall|i: int|
            0 <= i < out.0.len() ==> (#[trigger] out.0[i]).remaining == buffer@.len() - log_image(
                parse(buffer@).0.take(i + 1),
            ).len(),
{
    let len: usize = buffer.len();
    let mut records: Vec<Record<'a>> = Vec::new();
    let mut index: usize = 0;
    proof {
        assert(buffer@.skip(0) =~= buffer@);
        assert(payloads_of(records@) + parse(buffer@).0 =~= parse(buffer@).0);
        assert(payloads_of(records@) =~= Seq::<Seq<u8>>::empty());
    }
    while index < len
        invariant
            len == buffer@.len(),
            index <= len,
            parse(buffer@).0 == payloads_of(records@) + parse(buffer@.skip(index as int)).0,
            parse(buffer@).1 == parse(buffer@.skip(index as int)).1,
            index == log_image(payloads_of(records@)).len(),
            forall|i: int|
                0 <= i < records.len() ==> (#[trigger] records[i]).remaining == len - log_image(
                    payloads_of(records@).take(i + 1),
                ).len(),
        decreases len - index,
    {
        let ghost rest = buffer@.skip(index as int);
        let ghost found = payloads_of(records@);
        if len - index < 4 {
            proof {
                assert(parse(rest).0 =~= Seq::<Seq<u8>>::empty());
                assert(found + parse(rest).0 =~= found);
            }
            return (records, true);
        }
        let size: u64 = (buffer[index] as u64) * 0x100_0000 + (buffer[index + 1] as u64) * 0x1_0000
            + (buffer[index + 2] as u64) * 0x100 + (buffer[index + 3] as u64);
        let body: usize = index + 4;
        assert(size == header_value(rest));
        if ((len - body) as u64) < size {
            proof {
                assert(parse(rest).0 =~= Seq::<Seq<u8>>::empty());
                assert(found + parse(rest).0 =~= found);
            }
            return (records, true);
        }
        let end: usize = body + (size as usize);
        let payload: &'a [u8] = slice_subrange(buffer, body, end);
        records.push(Record { payload, remaining: len - end });
        proof {
            let longer = payloads_of(records@);
            assert(rest.subrange(4, 4 + size) =~= payload@);
            assert(rest.skip(4 + size) =~= buffer@.skip(end as int));
            assert(longer =~= found.push(payload@));
            assert(found + (seq![payload@] + parse(buffer@.skip(end as int)).0) =~= longer + parse(
                buffer@.skip(end as int),
            ).0);
            lemma_log_image_push(found, payload@);
            lemma_header_value(payload@.len());
            assert forall|i: int| 0 <= i < records.len() implies (#[trigger] records[i]).remaining
                == len - log_image(longer.take(i + 1)).len() by {
                if i < found.len() {
                    assert(longer.take(i + 1) =~= found.take(i + 1));
                } else {
                    assert(longer.take(i + 1) =~= longer);
                }
            }
        }
        index = end;
    }
    proof {
        let found = payloads_of(records@);
        assert(parse(buffer@.skip(index as int)).0 =~= Seq::<Seq<u8>>::empty());
        assert(found + parse(buffer@.skip(index as int)).0 =~= found);
    }
    (records, false)
}

/// Takes in what decoding one record gave: adds the record's entries to
/// `entries`, or, where the record did not decode, leaves `entries` alone and
/// says which record it was. `name` is the name of the type that was looked
/// for and `detail` what the decoder said.
pub fn accept<S>(
    entries: &mut Vec<S>,
    record: &Record<'_>,
    decoded: Result<LogItems<S>, String>,
    name: &str,
) -> (out: Result<(), Error>)
    ensures
        match decoded {
            Ok(items) => out is Ok && final(entries)@ == old(entries)@ + items.entries(),
            Err(detail) => {
                &&& final(entries)@ == old(entries)@
                &&& out matches Err(e)
                &&& e is LogParseError
                &&& e.text() == log_parse_text(
                    record.payload@.len(),
                    name@,
                    record.remaining as nat,
                    detail@,
                )
            },
        },
{
    match decoded {
        Ok(items) => {
            let mut more = items.into_entries();
            entries.append(&mut more);
            Ok(())
        },
        Err(detail) => Err(
            Error::log_parse(record.payload.len(), name, record.remaining, detail.as_str()),
        ),
    }
}

/// A log that does not exist yet, or is empty, holds no record and is not
/// cut short; replaying nothing leaves a table as it was, so every table
/// starts out empty.
pub proof fn lemma_fresh_log<K: Key, V: Value>()
    ensures
        parse(Seq::<u8>::empty()) == (Seq::<Seq<u8>>::empty(), false),
        replay(Seq::<TableEvent<K, V>>::empty(), Map::empty()) == Map::<K, V>::empty(),
{
}

/// Reading a record followed by anything yields the record's payload, then
/// whatever the rest yields.
pub proof fn lemma_parse_record(payload: Seq<u8>, rest: Seq<u8>)
    requires
        payload.len() < length_limit(),
    ensures
        parse(record(payload) + rest) == (seq![payload] + parse(rest).0, parse(rest).1),
{
    let buf = record(payload) + rest;
    lemma_header_value(payload.len());
    let h = header(payload.len());
    assert(buf[0] == h[0] && buf[1] == h[1] && buf[2] == h[2] && buf[3] == h[3]);
    assert(header_value(buf) == payload.len());
    let size = payload.len() as int;
    assert(buf.subrange(4, 4 + size) =~= payload);
    assert(buf.skip(4 + size) =~= rest);
}

/// Reading back what was written: a log made of complete records, followed by
/// nothing or by an incomplete record, yields the payloads in order, and the
/// flag says whether anything followed.
pub proof fn lemma_parse_log_image(payloads: Seq<Seq<u8>>, tail: Seq<u8>)
    requires
        forall|i: int| 0 <= i < payloads.len() ==> (#[trigger] payloads[i]).len() < length_limit(),
        tail.len() == 0 || incomplete(tail),
    ensures
        parse(log_image(payloads) + tail) == (payloads, tail.len() > 0),
    decreases payloads.len(),
{
    if payloads.len() == 0 {
        assert(log_image(payloads) + tail =~= tail);
        assert(parse(tail).0 =~= payloads);
    } else {
        let first = payloads.first();
        let others = payloads.drop_first();
        lemma_parse_log_image(others, tail);
        lemma_parse_record(first, log_image(others) + tail);
        assert(log_image(payloads) + tail =~= record(first) + (log_image(others) + tail));
        assert(seq![first] + others =~= payloads);
    }
}

/// Every buffer is the image of the records read from it, followed by what was
/// left over; the leftover is empty exactly when the flag is clear, and
/// otherwise is an incomplete record.
pub proof fn lemma_parse_splits(buf: Seq<u8>)
    ensures
        log_image(parse(buf).0).len() <= buf.len(),
        buf.take(log_image(parse(buf).0).len() as int) == log_image(parse(buf).0),
        parse(buf).1 <==> log_image(parse(buf).0).len() < buf.len(),
        parse(buf).1 ==> incomplete(buf.skip(log_image(parse(buf).0).len() as int)),
        forall|i: int|
            0 <= i < parse(buf).0.len() ==> (#[trigger] parse(buf).0[i]).len() < length_limit(),
    decreases buf.len(),
{
    if buf.len() < 4 || buf.len() < 4 + header_value(buf) {
        assert(parse(buf).0.len() == 0);
        assert(log_image(parse(buf).0).len() == 0);
        assert(buf.take(0) =~= log_image(parse(buf).0));
        assert(buf.skip(0) =~= buf);
    } else {
        let size = header_value(buf);
        let payload = buf.subrange(4, 4 + size);
        let rest = buf.skip(4 + size);
        let found = parse(buf).0;
        let others = parse(rest).0;
        lemma_parse_splits(rest);
        lemma_first_record(buf);
        assert(found == seq![payload] + others);
        lemma_log_image_cons(payload, others);
        let n = log_image(others).len() as int;
        assert(log_image(found).len() == 4 + size + n);
        assert(buf.take(4 + size + n) =~= buf.take(4 + size) + rest.take(n));
        assert(rest.skip(n) =~= buf.skip(4 + size + n));
        assert forall|i: int| 0 <= i < found.len() implies (#[trigger] found[i]).len()
            < length_limit() by {
            if i > 0 {
                assert(found[i] == others[i - 1]);
            }
        }
    }
}

/// Appending a record to a log of complete records gives a log of complete
/// records that holds one payload more, at its end.
pub proof fn lemma_append_record(buf: Seq<u8>, payload: Seq<u8>)
    requires
        !parse(buf).1,
        payload.len() < length_limit(),
    ensures
        parse(buf + record(payload)) == (parse(buf).0.push(payload), false),
{
    let found = parse(buf).0;
    lemma_parse_splits(buf);
    assert(buf =~= buf.take(buf.len() as int));
    assert(buf == log_image(found));
    lemma_log_image_push(found, payload);
    assert forall|i: int| 0 <= i < found.push(payload).len() implies (#[trigger] found.push(
        payload,
    )[i]).len() < length_limit() by {
        if i < found.len() {
            assert(found.push(payload)[i] == found[i]);
        }
    }
    lemma_parse_log_image(found.push(payload), Seq::empty());
    assert(log_image(found.push(payload)) + Seq::<u8>::empty() =~= buf + record(payload));
}

/// A record that was written in part only is an incomplete record.
pub proof fn lemma_cut_record(payload: Seq<u8>, cut: int)
    requires
        payload.len() < length_limit(),
        0 < cut < record(payload).len(),
    ensures
        incomplete(record(payload).take(cut)),
{
    lemma_header_value(payload.len());
    let whole = record(payload);
    let part = whole.take(cut);
    if cut >= 4 {
        let h = header(payload.len());
        assert(part[0] == h[0] && part[1] == h[1] && part[2] == h[2] && part[3] == h[3]);
        assert(header_value(part) == header_value(h));
    }
}

/// All or nothing: where a crash cuts short the record that was being
/// appended to a log of complete records, reading the log yields what it held
/// before and reports the cut; where the record went out whole, it is read
/// with the rest. So a transaction, which is one record, is recovered whole or
/// not at all.
pub proof fn lemma_torn_append(buf: Seq<u8>, payload: Seq<u8>, cut: int)
    requires
        !parse(buf).1,
        payload.len() < length_limit(),
        0 < cut <= record(payload).len(),
    ensures
        cut < record(payload).len() ==> parse(buf + record(payload).take(cut)) == (
            parse(buf).0,
            true,
        ),
        cut == record(payload).len() ==> parse(buf + record(payload).take(cut)) == (
            parse(buf).0.push(payload),
            false,
        ),
{
    if cut < record(payload).len() {
        lemma_cut_record(payload, cut);
        lemma_parse_splits(buf);
        assert(buf =~= buf.take(buf.len() as int));
        lemma_parse_log_image(parse(buf).0, record(payload).take(cut));
    } else {
        assert(record(payload).take(cut) =~= record(payload));
        lemma_append_record(buf, payload);
    }
}

/// Writing and reading back, for any encoding that can be undone: where
/// decoding the encoding of a record gives the record, a log written from
/// `items`, one record each, reads back without a cut, and decoding what was
/// read gives `items`.
pub proof fn lemma_log_round_trip<S>(
    items: Seq<LogItems<S>>,
    encode: spec_fn(LogItems<S>) -> Seq<u8>,
    decode: spec_fn(Seq<u8>) -> Option<LogItems<S>>,
)
    requires
        forall|item: LogItems<S>| decode(#[trigger] encode(item)) == Some(item),
        forall|i: int| 0 <= i < items.len() ==> encode(#[trigger] items[i]).len() < length_limit(),
    ensures
        !parse(log_image(items.map_values(encode))).1,
        parse(log_image(items.map_values(encode))).0.map_values(decode) == items.map_values(
            |item: LogItems<S>| Some(item),
        ),
{
    let payloads = items.map_values(encode);
    assert forall|i: int| 0 <= i < payloads.len() implies (#[trigger] payloads[i]).len()
        < length_limit() by {
        assert(payloads[i] == encode(items[i]));
    }
    lemma_parse_log_image(payloads, Seq::empty());
    assert(log_image(payloads) + Seq::<u8>::empty() =~= log_image(payloads));
    assert(payloads.map_values(decode) =~= items.map_values(|item: LogItems<S>| Some(item)));
}

/// Reopening: a log that was written one entry to a record, with an encoding
/// that can be undone, reads back without a cut, and what it decodes to
/// stands for the entries that were written, in order.
pub proof fn lemma_reopen<S>(
    entries: Seq<S>,
    encode: spec_fn(LogItems<S>) -> Seq<u8>,
    decode: spec_fn(Seq<u8>) -> Option<LogItems<S>>,
)
    requires
        forall|item: LogItems<S>| decode(#[trigger] encode(item)) == Some(item),
        forall|i: int|
            0 <= i < entries.len() ==> encode(LogItems::Single(#[trigger] entries[i])).len()
                < length_limit(),
    ensures
        ({
            let written = entries.map_values(|entry: S| encode(LogItems::Single(entry)));
            let read = parse(log_image(written));
            &&& read == (written, false)
            &&& log_entries(read.0.map_values(|payload: Seq<u8>| decode(payload)->0)) == entries
        }),
{
    let items = entries.map_values(|entry: S| LogItems::Single(entry));
    let written = entries.map_values(|entry: S| encode(LogItems::Single(entry)));
    assert(items.map_values(encode) =~= written);
    assert forall|i: int| 0 <= i < items.len() implies encode(#[trigger] items[i]).len()
        < length_limit() by {
        assert(items[i] == LogItems::Single(entries[i]));
    }
    lemma_log_round_trip(items, encode, decode);
    lemma_parse_log_image(written, Seq::empty());
    assert(log_image(written) + Seq::<u8>::empty() =~= log_image(written));
    assert(written.map_values(|payload: Seq<u8>| decode(payload)->0) =~= items);
    lemma_log_entries_single(entries);
}

/// A buffer that begins with a whole record begins with the record of its
/// first payload.
proof fn lemma_first_record(buf: Seq<u8>)
    requires
        buf.len() >= 4,
        buf.len() >= 4 + header_value(buf),
    ensures
        0 <= header_value(buf) < length_limit(),
        record(buf.subrange(4, 4 + header_value(buf))) == buf.take(4 + header_value(buf)),
{
    lemma_header_bytes(buf);
    let size = header_value(buf);
    let payload = buf.subrange(4, 4 + size);
    assert(payload.len() == size);
    assert(header(payload.len()) == buf.subrange(0, 4));
    assert(buf.subrange(0, 4) + payload =~= buf.take(4 + size));
}

} // verus!
