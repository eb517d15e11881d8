//! The archive format: records back to back, each a MessagePack array of two
//! binary strings, the key and then the replica. There is no header, footer or
//! count; a reader takes records until the bytes stop giving one.

use vstd::prelude::*;
use vstd::slice::slice_subrange;
use crate::error::MigrateError;
use crate::types::{Payload, Record, records_of};

verus! {

/// The error of `rmp_serde`'s encoder.
#[verifier::external_type_specification]
#[verifier::external_body]
pub struct ExEncodeError(rmp_serde::encode::Error);

/// The error of `rmp_serde`'s decoder.
#[verifier::external_type_specification]
#[verifier::external_body]
pub struct ExDecodeError(rmp_serde::decode::Error);

/// The length field of a binary string holds 32 bits.
pub open spec fn length_limit() -> nat {
    0x1_0000_0000
}

/// The marker and the big-endian length that open a binary string of `len`
/// bytes, in the shortest of the three forms that holds `len`.
pub open spec fn bin_header(len: nat) -> Seq<u8>
    recommends
        len < length_limit(),
{
    if len < 0x100 {
        seq![0xc4u8, len as u8]
    } else if len < 0x1_0000 {
        seq![0xc5u8, (len / 0x100) as u8, (len % 0x100) as u8]
    } else {
        seq![
            0xc6u8,
            (len / 0x100_0000) as u8,
            (len / 0x1_0000 % 0x100) as u8,
            (len / 0x100 % 0x100) as u8,
            (len % 0x100) as u8,
        ]
    }
}

/// A binary string: its header, then its bytes. A length beyond the limit is
/// written without its upper bits.
pub open spec fn bin(bytes: Seq<u8>) -> Seq<u8> {
    bin_header(bytes.len() % length_limit()) + bytes
}

/// One record in the archive: the marker of an array of two, the key, the
/// replica.
pub open spec fn record_bytes(record: Record) -> Seq<u8> {
    seq![0x92u8] + bin(record.key) + bin(record.data)
}

/// Both fields have a length that the format can hold.
pub open spec fn fits(record: Record) -> bool {
    record.key.len() < length_limit() && record.data.len() < length_limit()
}

/// `bytes` begin with the encoding of `record`, and the format can hold it.
pub open spec fn starts_with(bytes: Seq<u8>, record: Record) -> bool {
    fits(record) && record_bytes(record).is_prefix_of(bytes)
}

/// What `rmp_serde::Deserializer` decodes from the front of `bytes` as a
/// pair of byte strings, with the number of bytes it took; `None` where it
/// reports an error.
pub uninterp spec fn unpacked(bytes: Seq<u8>) -> Option<(Record, nat)>;

/// The record at the front of `bytes` and the number of bytes it occupies,
/// given what the decoder makes of them. Where the bytes begin with the
/// encoding of a record, it is that record; elsewhere the decoder's word
/// stands, as long as it took at least one byte and no more than there are.
pub open spec fn front_given(bytes: Seq<u8>, loose: Option<(Record, nat)>) -> Option<
    (Record, nat),
> {
    if exists|record: Record| starts_with(bytes, record) {
        let record = choose|record: Record| starts_with(bytes, record);
        Some((record, record_bytes(record).len()))
    } else {
        match loose {
            Some((record, used)) if 0 < used <= bytes.len() => loose,
            _ => None,
        }
    }
}

/// The record at the front of `bytes`, if there is one.
pub open spec fn front(bytes: Seq<u8>) -> Option<(Record, nat)> {
    front_given(bytes, unpacked(bytes))
}

/// What a call of the decoder returned, as the contracts see it.
pub open spec fn unpack_view(
    result: Result<(Vec<u8>, Vec<u8>, usize), rmp_serde::decode::Error>,
) -> Option<(Record, nat)> {
    match result {
        Ok((key, data, used)) => Some((Record { key: key@, data: data@ }, used as nat)),
        Err(_) => None,
    }
}

/// `rmp_serde::to_vec` on the pair of the two byte strings, each handed over
/// as `bytes::Bytes`. Where it returns bytes, they are the marker of an array
/// of two followed by the two binary strings; it fails only where its buffer
/// cannot grow.
#[verifier::external_body]
fn pack(key: &Vec<u8>, data: &Vec<u8>) -> (packed: Result<Vec<u8>, rmp_serde::encode::Error>)
    ensures
        packed matches Ok(bytes) ==> bytes@ == record_bytes((Record { key: key@, data: data@ })),
{
    rmp_serde::to_vec(&(bytes::Bytes::copy_from_slice(key), bytes::Bytes::copy_from_slice(data)))
}

/// `rmp_serde`'s deserializer on `bytes`, asked for a pair of `bytes::Bytes`,
/// and the position it stopped at. The result depends on the bytes alone.
/// Where they begin with the encoding of a record the result is that record
/// and the encoding's length; a success has taken at least the marker and no
/// more than the bytes there are.
#[verifier::external_body]
fn unpack(bytes: &[u8]) -> (result: Result<(Vec<u8>, Vec<u8>, usize), rmp_serde::decode::Error>)
    ensures
        unpack_view(result) == front_given(bytes@, unpacked(bytes@)),
{
    let mut de = rmp_serde::Deserializer::new(std::io::Cursor::new(bytes));
    let (key, data): (bytes::Bytes, bytes::Bytes) = serde::Deserialize::deserialize(&mut de)?;
    Ok((key.to_vec(), data.to_vec(), de.position() as usize))
}

/// What an encoding attempt amounts to: the bytes, or an input/output failure.
pub fn encoded(packed: Result<Vec<u8>, rmp_serde::encode::Error>) -> (result: Result<
    Vec<u8>,
    MigrateError,
>)
    ensures
        match packed {
            Ok(bytes) => result == Ok::<Vec<u8>, MigrateError>(bytes),
            Err(_) => result == Err::<Vec<u8>, MigrateError>(MigrateError::Io),
        },
{
    match packed {
        Ok(bytes) => Ok(bytes),
        Err(_) => Err(MigrateError::Io),
    }
}

/// Encodes one record for the archive.
pub fn encode_record(payload: &Payload) -> (result: Result<Vec<u8>, MigrateError>)
    ensures
        match result {
            Ok(bytes) => bytes@ == record_bytes(payload@),
            Err(error) => error == MigrateError::Io,
        },
{
    encoded(pack(&payload.key, &payload.data))
}

/// The record at offset `start` of `bytes` and the number of bytes it occupies;
/// nothing where `start` lies beyond the end.
pub open spec fn front_at(bytes: Seq<u8>, start: int) -> Option<(Record, nat)> {
    if 0 <= start <= bytes.len() {
        front(bytes.skip(start))
    } else {
        None
    }
}

/// The records of an archive: the record at the front, then those of the
/// rest, up to the first place that gives none.
pub open spec fn archive_records(bytes: Seq<u8>) -> Seq<Record>
    decreases bytes.len(),
{
    match front(bytes) {
        Some((record, used)) => if 0 < used <= bytes.len() {
            seq![record] + archive_records(bytes.skip(used as int))
        } else {
            Seq::empty()
        },
        None => Seq::empty(),
    }
}

/// The archive that holds `records` in this order.
pub open spec fn archive_bytes(records: Seq<Record>) -> Seq<u8>
    decreases records.len(),
{
    if records.len() == 0 {
        Seq::empty()
    } else {
        record_bytes(records[0]) + archive_bytes(records.skip(1))
    }
}

/// What a decoding attempt at offset `start` amounts to: the record and the
/// offset behind it, or a decode failure. An offset that no `usize` holds is
/// a failure too.
pub fn decoded(
    result: Result<(Vec<u8>, Vec<u8>, usize), rmp_serde::decode::Error>,
    start: usize,
) -> (step: Result<(Payload, usize), MigrateError>)
    ensures
        match unpack_view(result) {
            Some((record, used)) if start + used <= usize::MAX => step matches Ok((payload, next))
                && payload@ == record && next == start + used,
            _ => step matches Err(error) && error == MigrateError::Decode,
        },
{
    match result {
        Ok((key, data, used)) => match start.checked_add(used) {
            Some(next) => Ok((Payload { key, data }, next)),
            None => Err(MigrateError::Decode),
        },
        Err(_) => Err(MigrateError::Decode),
    }
}

/// Decodes the record that begins at offset `start`, and says where the next
/// one would begin.
pub fn decode_record(bytes: &Vec<u8>, start: usize) -> (step: Result<
    (Payload, usize),
    MigrateError,
>)
    ensures
        match front_at(bytes@, start as int) {
            Some((record, used)) => step matches Ok((payload, next)) && payload@ == record && next
                == start + used && start < next <= bytes.len(),
            None => step matches Err(error) && error == MigrateError::Decode,
        },
{
    if start > bytes.len() {
        return Err(MigrateError::Decode);
    }
    let rest = slice_subrange(bytes.as_slice(), start, bytes.len());
    assert(rest@ == bytes@.skip(start as int));
    decoded(unpack(rest), start)
}

/// Reads an archive: every record from the front up to the first place that
/// does not decode, which ends the archive whether it is its true end or not.
pub fn decode_archive(bytes: &Vec<u8>) -> (payloads: Vec<Payload>)
    ensures
        records_of(payloads@) == archive_records(bytes@),
{
    let mut payloads: Vec<Payload> = Vec::new();
    let mut position: usize = 0;
    assert(bytes@.skip(0) == bytes@);
    assert(records_of(payloads@) + archive_records(bytes@) == archive_records(bytes@));
    loop
        invariant
            position <= bytes.len(),
            records_of(payloads@) + archive_records(bytes@.skip(position as int))
                == archive_records(bytes@),
        ensures
            records_of(payloads@) == archive_records(bytes@),
        decreases bytes.len() - position,
    {
        match decode_record(bytes, position) {
            Ok((payload, next)) => {
                proof {
                    let rest = bytes@.skip(position as int);
                    assert(rest.skip(next - position) == bytes@.skip(next as int));
                    assert(records_of(payloads@.push(payload)) == records_of(payloads@) + seq![
                        payload@,
                    ]);
                }
                payloads.push(payload);
                position = next;
            },
            Err(_) => {
                assert(records_of(payloads@) + Seq::<Record>::empty() == records_of(payloads@));
                break ;
            },
        }
    }
    payloads
}

/// A header is two, three or five bytes long, by the length it announces.
pub open spec fn header_len(len: nat) -> nat {
    if len < 0x100 {
        2
    } else if len < 0x1_0000 {
        3
    } else {
        5
    }
}

/// Two binary strings that open the same bytes are the same string: the
/// marker fixes the form of the header, the header the length, and the length
/// the bytes.
pub proof fn lemma_bin_unique(bytes: Seq<u8>, first: Seq<u8>, second: Seq<u8>)
    requires
        first.len() < length_limit(),
        second.len() < length_limit(),
        bin(first).is_prefix_of(bytes),
        bin(second).is_prefix_of(bytes),
    ensures
        first == second,
{
    let a = first.len();
    let b = second.len();
    let ha = bin_header(a);
    let hb = bin_header(b);
    assert(ha.len() == header_len(a) && hb.len() == header_len(b));
    assert(bin(first)[0] == bytes[0] && bin(second)[0] == bytes[0]);
    assert(bin(first)[0] == ha[0] && bin(second)[0] == hb[0]);
    assert(header_len(a) == header_len(b));
    assert(bin(first)[1] == bytes[1] && bin(second)[1] == bytes[1]);
    assert(bin(first)[1] == ha[1] && bin(second)[1] == hb[1]);
    if a >= 0x100 {
        assert(bin(first)[2] == bytes[2] && bin(second)[2] == bytes[2]);
        assert(bin(first)[2] == ha[2] && bin(second)[2] == hb[2]);
    }
    if a >= 0x1_0000 {
        assert(bin(first)[3] == bytes[3] && bin(second)[3] == bytes[3]);
        assert(bin(first)[3] == ha[3] && bin(second)[3] == hb[3]);
        assert(bin(first)[4] == bytes[4] && bin(second)[4] == bytes[4]);
        assert(bin(first)[4] == ha[4] && bin(second)[4] == hb[4]);
    }
    assert(a == b);
    let h = header_len(a) as int;
    assert forall|i: int| 0 <= i < a implies first[i] == second[i] by {
        assert(bin(first)[h + i] == bytes[h + i]);
        assert(bin(second)[h + i] == bytes[h + i]);
    }
    assert(first =~= second);
}

/// At most one record opens given bytes.
pub proof fn lemma_record_unique(bytes: Seq<u8>, first: Record, second: Record)
    requires
        starts_with(bytes, first),
        starts_with(bytes, second),
    ensures
        first == second,
{
    let rest = bytes.skip(1);
    let a = record_bytes(first);
    let b = record_bytes(second);
    assert(bin(first.key).is_prefix_of(rest)) by {
        assert forall|i: int| 0 <= i < bin(first.key).len() implies bin(first.key)[i]
            == rest[i] by {
            assert(a[i + 1] == bytes[i + 1]);
        }
    }
    assert(bin(second.key).is_prefix_of(rest)) by {
        assert forall|i: int| 0 <= i < bin(second.key).len() implies bin(second.key)[i]
            == rest[i] by {
            assert(b[i + 1] == bytes[i + 1]);
        }
    }
    lemma_bin_unique(rest, first.key, second.key);
    let skipped = 1 + bin(first.key).len();
    let tail = bytes.skip(skipped as int);
    assert(bin(first.data).is_prefix_of(tail)) by {
        assert forall|i: int| 0 <= i < bin(first.data).len() implies bin(first.data)[i]
            == tail[i] by {
            assert(a[i + skipped] == bytes[i + skipped]);
        }
    }
    assert(bin(second.data).is_prefix_of(tail)) by {
        assert forall|i: int| 0 <= i < bin(second.data).len() implies bin(second.data)[i]
            == tail[i] by {
            assert(b[i + skipped] == bytes[i + skipped]);
        }
    }
    lemma_bin_unique(tail, first.data, second.data);
}

/// Bytes that begin with the encoding of a record give that record back, and
/// the encoding's length.
pub proof fn lemma_front_of_encoding(bytes: Seq<u8>, record: Record)
    requires
        starts_with(bytes, record),
    ensures
        front(bytes) == Some((record, record_bytes(record).len())),
        0 < record_bytes(record).len() <= bytes.len(),
{
    let chosen = choose|other: Record| starts_with(bytes, other);
    lemma_record_unique(bytes, chosen, record);
}

/// Encoding a record and decoding the result reproduces both fields, for
/// every record whose fields the format can hold.
pub proof fn lemma_record_round_trip(record: Record)
    requires
        fits(record),
    ensures
        front(record_bytes(record)) == Some((record, record_bytes(record).len())),
        front_at(record_bytes(record), 0) == Some((record, record_bytes(record).len())),
{
    let bytes = record_bytes(record);
    assert(bytes.is_prefix_of(bytes));
    lemma_front_of_encoding(bytes, record);
    assert(bytes.skip(0) == bytes);
}

/// An archive written from records that the format can hold reads back as
/// the same records in the same order.
pub proof fn lemma_archive_round_trip(records: Seq<Record>)
    requires
        forall|i: int| 0 <= i < records.len() ==> fits(#[trigger] records[i]),
    ensures
        archive_records(archive_bytes(records)) == records,
    decreases records.len(),
{
    if records.len() == 0 {
        assert(archive_bytes(records).len() == 0);
        assert(archive_records(archive_bytes(records)) =~= records);
    } else {
        let head = record_bytes(records[0]);
        let rest = records.skip(1);
        let bytes = archive_bytes(records);
        assert(bytes == head + archive_bytes(rest));
        assert(head.is_prefix_of(bytes));
        lemma_front_of_encoding(bytes, records[0]);
        assert(bytes.skip(head.len() as int) == archive_bytes(rest));
        assert forall|i: int| 0 <= i < rest.len() implies fits(#[trigger] rest[i]) by {
            assert(rest[i] == records[i + 1]);
        }
        lemma_archive_round_trip(rest);
        assert(seq![records[0]] + rest == records);
    }
}

} // verus!
