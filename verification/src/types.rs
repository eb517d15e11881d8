//! The record that a migration carries.

use vstd::prelude::*;

verus! {

/// What a record is, to the contracts: two byte strings.
pub struct Record {
    pub key: Seq<u8>,
    pub data: Seq<u8>,
}

/// The sole transfer unit: a key of the source keyspace and the opaque
/// serialized replica that the store's extraction primitive gave for it.
#[derive(Debug)]
pub struct Payload {
    pub key: Vec<u8>,
    pub data: Vec<u8>,
}

impl View for Payload {
    type V = Record;

    open spec fn view(&self) -> Record {
        Record { key: self.key@, data: self.data@ }
    }
}

impl Clone for Payload {
    /// A copy carries the same bytes in both fields.
    fn clone(&self) -> (copy: Self)
        ensures
            copy@ == self@,
    {
        Payload { key: self.key.clone(), data: self.data.clone() }
    }
}

impl Payload {
    /// A record of the given key and replica.
    pub fn new(key: Vec<u8>, data: Vec<u8>) -> (payload: Self)
        ensures
            payload@ == (Record { key: key@, data: data@ }),
    {
        Payload { key, data }
    }
}

/// The records that a vector of payloads stands for, in order.
pub open spec fn records_of(payloads: Seq<Payload>) -> Seq<Record> {
    payloads.map_values(|p: Payload| p@)
}

/// A batch that holds no record.
pub(crate) fn empty_batch() -> (batch: Vec<Payload>)
    ensures
        records_of(batch@) == Seq::<Record>::empty(),
{
    let batch: Vec<Payload> = Vec::new();
    assert(records_of(batch@) =~= Seq::<Record>::empty());
    batch
}

/// The byte strings that a vector of byte vectors stands for, in order.
pub open spec fn strings_of(vectors: Seq<Vec<u8>>) -> Seq<Seq<u8>> {
    vectors.map_values(|v: Vec<u8>| v@)
}

} // verus!
