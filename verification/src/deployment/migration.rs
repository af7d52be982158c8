//! What earlier deployments left on the ledger.

use vstd::prelude::*;

verus! {

/// A place on the ledger: an output of a transaction.
#[derive(Clone, Copy, Debug, PartialEq, Eq)]
pub struct OutPoint {
    pub tx_hash: [u8; 32],
    pub index: u32,
}

/// Where a named cell was deployed.
#[derive(Clone, Debug, PartialEq, Eq)]
pub struct MigrationRecord {
    pub name: String,
    pub out_point: OutPoint,
}

/// What a [`MigrationRecord`] holds.
pub struct MigrationRecordView {
    pub name: Seq<char>,
    pub out_point: OutPoint,
}

impl View for MigrationRecord {
    type V = MigrationRecordView;

    open spec fn view(&self) -> MigrationRecordView {
        MigrationRecordView { name: self.name@, out_point: self.out_point }
    }
}

/// What a list of records holds.
pub open spec fn record_views(records: Seq<MigrationRecord>) -> Seq<MigrationRecordView> {
    records.map_values(|record: MigrationRecord| record@)
}

/// The places in `base`, changed as `records` say, one after the other: a
/// later record of a name replaces an earlier one.
pub open spec fn recorded_over(
    base: Map<Seq<char>, OutPoint>,
    records: Seq<MigrationRecordView>,
) -> Map<Seq<char>, OutPoint>
    decreases records.len(),
{
    if records.len() == 0 {
        base
    } else {
        recorded_over(base, records.drop_last()).insert(
            records.last().name,
            records.last().out_point,
        )
    }
}

/// Why the record of deployments could not be extended.
#[derive(Clone, Copy, Debug, PartialEq, Eq, Structural)]
pub enum MigrationError {
    /// The sequence number cannot grow any further.
    SequenceExhausted,
    /// The bytes are not those of a record of deployments.
    MigrationCorrupt,
    /// The record has more records, or a longer name, than its file can state.
    StoreTooLarge,
}

/// The record of deployments: the records of every successful run, oldest
/// first, and the number of those runs.
#[derive(Clone, Debug, PartialEq, Eq)]
pub struct MigrationState {
    pub sequence: u64,
    pub records: Vec<MigrationRecord>,
}

/// What a [`MigrationState`] says: how many runs it records, and where each
/// name lives now.
pub struct MigrationStateView {
    pub sequence: nat,
    pub locations: Map<Seq<char>, OutPoint>,
}

impl MigrationStateView {
    /// Where `name` lives now, if it was ever deployed.
    pub open spec fn location(self, name: Seq<char>) -> Option<OutPoint> {
        if self.locations.dom().contains(name) {
            Some(self.locations[name])
        } else {
            None
        }
    }
}

impl View for MigrationState {
    type V = MigrationStateView;

    open spec fn view(&self) -> MigrationStateView {
        MigrationStateView {
            sequence: self.sequence as nat,
            locations: recorded_over(Map::empty(), record_views(self.records@)),
        }
    }
}

/// Recording two lists one after the other is recording them as one list.
pub proof fn lemma_recorded_over_concat(
    base: Map<Seq<char>, OutPoint>,
    first: Seq<MigrationRecordView>,
    second: Seq<MigrationRecordView>,
)
    ensures
        recorded_over(recorded_over(base, first), second) == recorded_over(base, first + second),
    decreases second.len(),
{
    if second.len() == 0 {
        assert(first + second =~= first);
    } else {
        lemma_recorded_over_concat(base, first, second.drop_last());
        assert((first + second).drop_last() =~= first + second.drop_last());
        assert((first + second).last() == second.last());
    }
}

/// A name that `records` do not mention lives where it lived before.
pub proof fn lemma_recorded_over_keeps(
    base: Map<Seq<char>, OutPoint>,
    records: Seq<MigrationRecordView>,
    name: Seq<char>,
)
    requires
        forall|i: int| 0 <= i < records.len() ==> (#[trigger] records[i]).name != name,
    ensures
        recorded_over(base, records).dom().contains(name) == base.dom().contains(name),
        base.dom().contains(name) ==> recorded_over(base, records)[name] == base[name],
    decreases records.len(),
{
    if records.len() > 0 {
        assert forall|i: int| 0 <= i < records.drop_last().len() implies (
        #[trigger] records.drop_last()[i]).name != name by {
            assert(records.drop_last()[i] == records[i]);
        }
        lemma_recorded_over_keeps(base, records.drop_last(), name);
        assert(records.last() == records[records.len() - 1]);
    }
}

/// A name lives where the last record that mentions it says.
pub proof fn lemma_recorded_over_last_wins(
    base: Map<Seq<char>, OutPoint>,
    records: Seq<MigrationRecordView>,
    index: int,
)
    requires
        0 <= index < records.len(),
        forall|i: int| index < i < records.len() ==> (#[trigger] records[i]).name != records[index].name,
    ensures
        recorded_over(base, records).dom().contains(records[index].name),
        recorded_over(base, records)[records[index].name] == records[index].out_point,
    decreases records.len(),
{
    if index < records.len() - 1 {
        assert forall|i: int| index < i < records.drop_last().len() implies (
        #[trigger] records.drop_last()[i]).name != records.drop_last()[index].name by {
            assert(records.drop_last()[i] == records[i]);
        }
        lemma_recorded_over_last_wins(base, records.drop_last(), index);
        assert(records.last() == records[records.len() - 1]);
    }
}

/// A name that a record mentions lives somewhere.
pub proof fn lemma_recorded_over_contains(
    base: Map<Seq<char>, OutPoint>,
    records: Seq<MigrationRecordView>,
    index: int,
)
    requires
        0 <= index < records.len(),
    ensures
        recorded_over(base, records).dom().contains(records[index].name),
    decreases records.len(),
{
    if index < records.len() - 1 {
        lemma_recorded_over_contains(base, records.drop_last(), index);
        assert(records.drop_last()[index] == records[index]);
    }
}

impl MigrationState {
    /// The record before the first deployment: no run, no name.
    pub fn new() -> (state: MigrationState)
        ensures
            state@.sequence == 0,
            state@.locations == Map::<Seq<char>, OutPoint>::empty(),
    {
        let state = MigrationState { sequence: 0, records: Vec::new() };
        assert(record_views(state.records@) =~= Seq::empty());
        state
    }

    /// Where `name` lives now, if it was ever deployed.
    pub fn get(&self, name: &str) -> (result: Option<OutPoint>)
        ensures
            result == self@.location(name@),
    {
        let wanted = name.to_owned();
        let ghost all = record_views(self.records@);
        let ghost empty = Map::<Seq<char>, OutPoint>::empty();
        let mut found: Option<OutPoint> = None;
        let mut i: usize = 0;
        assert(all.subrange(0, 0) =~= Seq::empty());
        while i < self.records.len()
            invariant
                i <= self.records@.len(),
                all == record_views(self.records@),
                empty == Map::<Seq<char>, OutPoint>::empty(),
                wanted@ == name@,
                found == (MigrationStateView {
                    sequence: 0,
                    locations: recorded_over(empty, all.subrange(0, i as int)),
                }).location(name@),
            decreases self.records@.len() - i,
        {
            let record = &self.records[i];
            proof {
                assert(all.subrange(0, i + 1).drop_last() =~= all.subrange(0, i as int));
                assert(all.subrange(0, i + 1).last() == record@);
            }
            if record.name == wanted {
                found = Some(record.out_point);
            }
            i = i + 1;
        }
        assert(all.subrange(0, self.records@.len() as int) =~= all);
        found
    }

    /// The record after one more successful run that deployed `records`.
    pub fn append(&self, records: &[MigrationRecord]) -> (result: Result<
        MigrationState,
        MigrationError,
    >)
        ensures
            match result {
                Ok(next) => {
                    &&& self@.sequence < u64::MAX
                    &&& next@.sequence == self@.sequence + 1
                    &&& next@.locations == recorded_over(self@.locations, record_views(records@))
                },
                Err(MigrationError::SequenceExhausted) => self@.sequence == u64::MAX,
                Err(_) => false,
            },
    {
        if self.sequence == u64::MAX {
            return Err(MigrationError::SequenceExhausted);
        }
        let ghost old_views = record_views(self.records@);
        let ghost new_views = record_views(records@);
        let mut all: Vec<MigrationRecord> = Vec::new();
        let mut i: usize = 0;
        assert(record_views(all@) =~= old_views.subrange(0, 0));
        while i < self.records.len()
            invariant
                i <= self.records@.len(),
                old_views == record_views(self.records@),
                record_views(all@) == old_views.subrange(0, i as int),
            decreases self.records@.len() - i,
        {
            let record = &self.records[i];
            let ghost before = record_views(all@);
            all.push(MigrationRecord { name: record.name.clone(), out_point: record.out_point });
            assert(record_views(all@) =~= before.push(record@));
            assert(before.push(record@) =~= old_views.subrange(0, i + 1));
            i = i + 1;
        }
        assert(old_views.subrange(0, self.records@.len() as int) =~= old_views);
        let mut j: usize = 0;
        assert(record_views(all@) =~= old_views + new_views.subrange(0, 0));
        while j < records.len()
            invariant
                j <= records@.len(),
                new_views == record_views(records@),
                record_views(all@) == old_views + new_views.subrange(0, j as int),
            decreases records@.len() - j,
        {
            let record = &records[j];
            let ghost before = record_views(all@);
            all.push(MigrationRecord { name: record.name.clone(), out_point: record.out_point });
            assert(record_views(all@) =~= before.push(record@));
            assert(before.push(record@) =~= old_views + new_views.subrange(0, j + 1));
            j = j + 1;
        }
        assert(new_views.subrange(0, records@.len() as int) =~= new_views);
        proof {
            lemma_recorded_over_concat(Map::empty(), old_views, new_views);
        }
        Ok(MigrationState { sequence: self.sequence + 1, records: all })
    }
}

} // verus!
