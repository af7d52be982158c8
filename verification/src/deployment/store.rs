//! The record of deployments as it is kept on disk.
//!
//! The file holds the number of runs in eight bytes, the number of records
//! in four, then the records. A record is the length of the name in four
//! bytes, the name in UTF-8, the 32 bytes of the transaction's hash and the
//! index of the output in four bytes. All numbers are little-endian.

use crate::bytes::{
    append_bytes,
    le_bytes,
    le_bytes_of,
    le_value,
    le_value_of,
    lemma_le_bytes_len,
    lemma_le_bytes_of_le_value,
    lemma_le_value_of_le_bytes,
    lemma_pow256_values,
};
use crate::deployment::migration::{
    record_views,
    MigrationError,
    MigrationRecord,
    MigrationRecordView,
    MigrationState,
    OutPoint,
};
use vstd::prelude::*;
use vstd::slice::{slice_subrange, slice_to_vec};
use vstd::utf8::{decode_utf8, encode_utf8, encode_utf8_decode_utf8, encode_utf8_valid_utf8, valid_utf8};

verus! {

/// Number of bytes of a record besides its name: the length of the name,
/// the hash and the index.
pub const RECORD_FRAME_SIZE: usize = 40;

/// Number of bytes before the records: the number of runs and the number of
/// records.
pub const STORE_HEADER_SIZE: usize = 12;

/// The hash that has the given 32 bytes.
pub open spec fn hash_of(bytes: Seq<u8>) -> [u8; 32] {
    choose|hash: [u8; 32]| hash@ == bytes
}

/// A hash is the hash that has its bytes.
pub proof fn lemma_hash_of(hash: [u8; 32])
    ensures
        hash_of(hash@) == hash,
{
    let chosen = hash_of(hash@);
    assert(chosen@ == hash@);
    assert(chosen@ =~= hash@);
}

/// The bytes of a record.
pub open spec fn record_encoding(record: MigrationRecordView) -> Seq<u8> {
    le_bytes(encode_utf8(record.name).len(), 4) + encode_utf8(record.name)
        + record.out_point.tx_hash@ + le_bytes(record.out_point.index as nat, 4)
}

/// The bytes of the records, one after the other.
pub open spec fn records_encoding(records: Seq<MigrationRecordView>) -> Seq<u8>
    decreases records.len(),
{
    if records.len() == 0 {
        Seq::empty()
    } else {
        record_encoding(records.first()) + records_encoding(records.drop_first())
    }
}

/// The bytes of the file that holds `sequence` runs and `records`.
pub open spec fn store_encoding(sequence: nat, records: Seq<MigrationRecordView>) -> Seq<u8> {
    le_bytes(sequence, 8) + le_bytes(records.len(), 4) + records_encoding(records)
}

/// The numbers of the file can state the number of the records and the
/// length of each name.
pub open spec fn storable(records: Seq<MigrationRecordView>) -> bool {
    &&& records.len() <= u32::MAX
    &&& forall|i: int|
        0 <= i < records.len() ==> encode_utf8((#[trigger] records[i]).name).len() <= u32::MAX
}

/// The record at the head of `bytes` and the number of bytes it takes;
/// `None` where the bytes are too few for it or its name is not UTF-8.
pub open spec fn parsed_record(bytes: Seq<u8>) -> Option<(MigrationRecordView, int)> {
    if bytes.len() < 4 {
        None
    } else {
        let length = le_value(bytes.subrange(0, 4)) as int;
        if bytes.len() < length + RECORD_FRAME_SIZE {
            None
        } else if !valid_utf8(bytes.subrange(4, 4 + length)) {
            None
        } else {
            Some(
                (
                    MigrationRecordView {
                        name: decode_utf8(bytes.subrange(4, 4 + length)),
                        out_point: OutPoint {
                            tx_hash: hash_of(bytes.subrange(4 + length, 36 + length)),
                            index: le_value(bytes.subrange(36 + length, 40 + length)) as u32,
                        },
                    },
                    length + RECORD_FRAME_SIZE,
                ),
            )
        }
    }
}

/// The `count` records that `bytes` hold, where they hold exactly that many.
pub open spec fn parsed_records(bytes: Seq<u8>, count: nat) -> Option<Seq<MigrationRecordView>>
    decreases count,
{
    if count == 0 {
        if bytes.len() == 0 {
            Some(Seq::empty())
        } else {
            None
        }
    } else {
        match parsed_record(bytes) {
            Some((record, used)) => match parsed_records(bytes.skip(used), (count - 1) as nat) {
                Some(rest) => Some(seq![record] + rest),
                None => None,
            },
            None => None,
        }
    }
}

/// The number of runs and the records that the file holds; `None` where the
/// bytes are not those of any file.
pub open spec fn parsed_store(bytes: Seq<u8>) -> Option<(nat, Seq<MigrationRecordView>)> {
    if bytes.len() < STORE_HEADER_SIZE {
        None
    } else {
        match parsed_records(
            bytes.skip(STORE_HEADER_SIZE as int),
            le_value(bytes.subrange(8, 12)),
        ) {
            Some(records) => Some((le_value(bytes.subrange(0, 8)), records)),
            None => None,
        }
    }
}

/// Calls `String::from_utf8`, which accepts the bytes exactly where they are
/// valid UTF-8 and then gives the text that they encode.
#[verifier::external_body]
fn string_from_utf8(bytes: Vec<u8>) -> (result: Option<String>)
    ensures
        match result {
            Some(text) => valid_utf8(bytes@) && text@ == decode_utf8(bytes@),
            None => !valid_utf8(bytes@),
        },
{
    match String::from_utf8(bytes) {
        Ok(text) => Some(text),
        Err(_) => None,
    }
}

/// The hash that the 32 bytes spell.
fn read_hash(bytes: &[u8]) -> (hash: [u8; 32])
    requires
        bytes@.len() == 32,
    ensures
        hash == hash_of(bytes@),
{
    let mut hash: [u8; 32] = [0u8; 32];
    let mut i: usize = 0;
    while i < 32
        invariant
            i <= 32,
            bytes@.len() == 32,
            forall|j: int| 0 <= j < i ==> hash@[j] == bytes@[j],
        decreases 32 - i,
    {
        hash[i] = bytes[i];
        i = i + 1;
    }
    proof {
        assert(hash@ =~= bytes@);
        lemma_hash_of(hash);
    }
    hash
}

/// Reads the record that starts at `offset`.
fn read_record(bytes: &[u8], offset: usize) -> (result: Option<(MigrationRecord, usize)>)
    requires
        offset <= bytes@.len(),
    ensures
        match result {
            Some((record, next)) => {
                &&& offset <= next <= bytes@.len()
                &&& parsed_record(bytes@.skip(offset as int)) == Some((record@, next - offset))
            },
            None => parsed_record(bytes@.skip(offset as int)) is None,
        },
{
    let ghost rest = bytes@.skip(offset as int);
    let remaining: usize = bytes.len() - offset;
    if remaining < 4 {
        return None;
    }
    let length: u64 = le_value_of(slice_subrange(bytes, offset, offset + 4));
    proof {
        assert(bytes@.subrange(offset as int, offset + 4) =~= rest.subrange(0, 4));
        lemma_pow256_values();
        lemma_le_bytes_of_le_value(rest.subrange(0, 4));
    }
    if ((remaining - 4) as u64) < length + 36 {
        return None;
    }
    let name_start: usize = offset + 4;
    let hash_start: usize = name_start + length as usize;
    let index_start: usize = hash_start + 32;
    let next: usize = index_start + 4;
    proof {
        assert(bytes@.subrange(name_start as int, hash_start as int) =~= rest.subrange(
            4,
            4 + length,
        ));
        assert(bytes@.subrange(hash_start as int, index_start as int) =~= rest.subrange(
            4 + length,
            36 + length,
        ));
        assert(bytes@.subrange(index_start as int, next as int) =~= rest.subrange(
            36 + length,
            40 + length,
        ));
        lemma_le_bytes_of_le_value(rest.subrange(36 + length, 40 + length));
    }
    let name = match string_from_utf8(slice_to_vec(slice_subrange(bytes, name_start, hash_start))) {
        Some(name) => name,
        None => {
            return None;
        },
    };
    let tx_hash = read_hash(slice_subrange(bytes, hash_start, index_start));
    let index: u64 = le_value_of(slice_subrange(bytes, index_start, next));
    Some((MigrationRecord { name, out_point: OutPoint { tx_hash, index: index as u32 } }, next))
}

/// The records, with what follows them left out, where all of them can be read.
pub open spec fn prepended(
    done: Seq<MigrationRecordView>,
    rest: Option<Seq<MigrationRecordView>>,
) -> Option<Seq<MigrationRecordView>> {
    match rest {
        Some(rest) => Some(done + rest),
        None => None,
    }
}

/// The bytes of two lists of records, one after the other, are the bytes of
/// the one list.
pub proof fn lemma_records_encoding_concat(
    first: Seq<MigrationRecordView>,
    second: Seq<MigrationRecordView>,
)
    ensures
        records_encoding(first + second) == records_encoding(first) + records_encoding(second),
    decreases first.len(),
{
    if first.len() == 0 {
        assert(first + second =~= second);
        assert(records_encoding(first) + records_encoding(second) =~= records_encoding(second));
    } else {
        lemma_records_encoding_concat(first.drop_first(), second);
        assert((first + second).drop_first() =~= first.drop_first() + second);
        assert((first + second).first() == first.first());
        assert(records_encoding(first + second) =~= records_encoding(first) + records_encoding(
            second,
        ));
    }
}

/// A record is read back from its bytes, whatever follows them.
pub proof fn lemma_record_round_trip(record: MigrationRecordView, tail: Seq<u8>)
    requires
        encode_utf8(record.name).len() <= u32::MAX,
    ensures
        parsed_record(record_encoding(record) + tail) == Some(
            (record, record_encoding(record).len() as int),
        ),
{
    let name = encode_utf8(record.name);
    let length = name.len() as int;
    let bytes = record_encoding(record) + tail;
    lemma_pow256_values();
    lemma_le_bytes_len(name.len(), 4);
    lemma_le_bytes_len(record.out_point.index as nat, 4);
    lemma_le_value_of_le_bytes(name.len(), 4);
    lemma_le_value_of_le_bytes(record.out_point.index as nat, 4);
    encode_utf8_valid_utf8(record.name);
    encode_utf8_decode_utf8(record.name);
    lemma_hash_of(record.out_point.tx_hash);
    assert(record.out_point.tx_hash@.len() == 32);
    assert(bytes.subrange(0, 4) =~= le_bytes(name.len(), 4));
    assert(bytes.subrange(4, 4 + length) =~= name);
    assert(bytes.subrange(4 + length, 36 + length) =~= record.out_point.tx_hash@);
    assert(bytes.subrange(36 + length, 40 + length) =~= le_bytes(
        record.out_point.index as nat,
        4,
    ));
}

/// Records are read back from their bytes.
pub proof fn lemma_records_round_trip(records: Seq<MigrationRecordView>)
    requires
        storable(records),
    ensures
        parsed_records(records_encoding(records), records.len()) == Some(records),
    decreases records.len(),
{
    if records.len() == 0 {
        assert(records =~= Seq::empty());
    } else {
        let first = records.first();
        let rest = records.drop_first();
        let bytes = records_encoding(records);
        assert forall|i: int| 0 <= i < rest.len() implies encode_utf8((#[trigger] rest[i]).name).len()
            <= u32::MAX by {
            assert(rest[i] == records[i + 1]);
        }
        lemma_record_round_trip(first, records_encoding(rest));
        lemma_records_round_trip(rest);
        assert(bytes.skip(record_encoding(first).len() as int) =~= records_encoding(rest));
        assert(seq![first] + rest =~= records);
    }
}

/// The record of deployments is read back from the bytes of its file.
pub proof fn lemma_store_round_trip(sequence: nat, records: Seq<MigrationRecordView>)
    requires
        sequence <= u64::MAX,
        storable(records),
    ensures
        parsed_store(store_encoding(sequence, records)) == Some((sequence, records)),
{
    let bytes = store_encoding(sequence, records);
    lemma_pow256_values();
    lemma_le_bytes_len(sequence, 8);
    lemma_le_bytes_len(records.len(), 4);
    lemma_le_value_of_le_bytes(sequence, 8);
    lemma_le_value_of_le_bytes(records.len(), 4);
    lemma_records_round_trip(records);
    assert(bytes.subrange(0, 8) =~= le_bytes(sequence, 8));
    assert(bytes.subrange(8, 12) =~= le_bytes(records.len(), 4));
    assert(bytes.skip(STORE_HEADER_SIZE as int) =~= records_encoding(records));
}

impl MigrationState {
    /// The bytes of the file that holds this record of deployments.
    pub fn to_bytes(&self) -> (result: Result<Vec<u8>, MigrationError>)
        ensures
            match result {
                Ok(bytes) => {
                    &&& storable(record_views(self.records@))
                    &&& bytes@ == store_encoding(
                        self.sequence as nat,
                        record_views(self.records@),
                    )
                },
                Err(MigrationError::StoreTooLarge) => !storable(record_views(self.records@)),
                Err(_) => false,
            },
    {
        let ghost all = record_views(self.records@);
        if self.records.len() > u32::MAX as usize {
            return Err(MigrationError::StoreTooLarge);
        }
        let mut out: Vec<u8> = le_bytes_of(self.sequence, 8);
        let count = le_bytes_of(self.records.len() as u64, 4);
        append_bytes(&mut out, count.as_slice());
        let ghost header = out@;
        let mut i: usize = 0;
        proof {
            assert(all.subrange(0, 0) =~= Seq::empty());
            assert(header + records_encoding(all.subrange(0, 0)) =~= header);
        }
        while i < self.records.len()
            invariant
                i <= self.records@.len(),
                all == record_views(self.records@),
                out@ == header + records_encoding(all.subrange(0, i as int)),
                forall|j: int| 0 <= j < i ==> encode_utf8((#[trigger] all[j]).name).len() <= u32::MAX,
            decreases self.records@.len() - i,
        {
            let record = &self.records[i];
            let name = record.name.as_str().as_bytes();
            assert(all[i as int] == record@);
            if name.len() > u32::MAX as usize {
                return Err(MigrationError::StoreTooLarge);
            }
            let length = le_bytes_of(name.len() as u64, 4);
            let index = le_bytes_of(record.out_point.index as u64, 4);
            let ghost before = out@;
            append_bytes(&mut out, length.as_slice());
            append_bytes(&mut out, name);
            append_bytes(&mut out, record.out_point.tx_hash.as_slice());
            append_bytes(&mut out, index.as_slice());
            proof {
                let done = all.subrange(0, i as int);
                lemma_records_encoding_concat(done, seq![record@]);
                let single = seq![record@];
                assert(single.drop_first() =~= Seq::empty());
                assert(records_encoding(single.drop_first()) =~= Seq::empty());
                assert(single.first() == record@);
                assert(records_encoding(single) =~= record_encoding(record@));
                assert(done + seq![record@] =~= all.subrange(0, i + 1));
                assert(out@ =~= before + record_encoding(record@));
                assert(before + record_encoding(record@) =~= header + (records_encoding(done)
                    + record_encoding(record@)));
            }
            i = i + 1;
        }
        assert(all.subrange(0, self.records@.len() as int) =~= all);
        Ok(out)
    }

    /// Reads the record of deployments from the bytes of its file. Bytes
    /// that are not those of a file are refused as they are: nothing is
    /// guessed and nothing is mended.
    pub fn from_bytes(bytes: &[u8]) -> (result: Result<MigrationState, MigrationError>)
        ensures
            match result {
                Ok(state) => parsed_store(bytes@) == Some(
                    (state.sequence as nat, record_views(state.records@)),
                ),
                Err(MigrationError::MigrationCorrupt) => parsed_store(bytes@) is None,
                Err(_) => false,
            },
    {
        if bytes.len() < STORE_HEADER_SIZE {
            return Err(MigrationError::MigrationCorrupt);
        }
        let sequence: u64 = le_value_of(slice_subrange(bytes, 0, 8));
        let count: u64 = le_value_of(slice_subrange(bytes, 8, 12));
        let ghost body = bytes@.skip(STORE_HEADER_SIZE as int);
        let mut records: Vec<MigrationRecord> = Vec::new();
        let mut offset: usize = STORE_HEADER_SIZE;
        let mut i: u64 = 0;
        proof {
            assert(record_views(records@) =~= Seq::empty());
            assert(body.skip(0) =~= body);
            assert(parsed_records(body, count as nat) == prepended(
                record_views(records@),
                parsed_records(body.skip(0), count as nat),
            )) by {
                match parsed_records(body, count as nat) {
                    Some(all) => {
                        assert(Seq::<MigrationRecordView>::empty() + all =~= all);
                    },
                    None => {},
                }
            }
        }
        while i < count
            invariant
                i <= count,
                STORE_HEADER_SIZE <= offset <= bytes@.len(),
                count == le_value(bytes@.subrange(8, 12)),
                body == bytes@.skip(STORE_HEADER_SIZE as int),
                parsed_records(body, count as nat) == prepended(
                    record_views(records@),
                    parsed_records(body.skip(offset - STORE_HEADER_SIZE), (count - i) as nat),
                ),
            decreases count - i,
        {
            let ghost here = body.skip(offset - STORE_HEADER_SIZE);
            assert(here =~= bytes@.skip(offset as int));
            let (record, next) = match read_record(bytes, offset) {
                Some(read) => read,
                None => {
                    return Err(MigrationError::MigrationCorrupt);
                },
            };
            proof {
                let before = record_views(records@);
                let after = parsed_records(here.skip(next - offset), (count - i - 1) as nat);
                assert(here.skip(next - offset) =~= body.skip(next - STORE_HEADER_SIZE));
                assert(parsed_records(here, (count - i) as nat) == prepended(seq![record@], after));
                match after {
                    Some(rest) => {
                        assert(before + (seq![record@] + rest) =~= before.push(record@) + rest);
                    },
                    None => {},
                }
            }
            let ghost before = record_views(records@);
            records.push(record);
            assert(record_views(records@) =~= before.push(record@));
            offset = next;
            i = i + 1;
        }
        if offset != bytes.len() {
            return Err(MigrationError::MigrationCorrupt);
        }
        proof {
            let done = record_views(records@);
            assert(body.skip(offset - STORE_HEADER_SIZE).len() == 0);
            assert(done + Seq::<MigrationRecordView>::empty() =~= done);
        }
        Ok(MigrationState { sequence, records })
    }
}

} // verus!
