//! The volatile store backend: records live in process memory, in insertion
//! order, and are gone when the process ends. Fully verified against the
//! store interface's map model.

use vstd::prelude::*;

use crate::store::{
    clone_record, Record, RecordV, RuntimeConfig, RuntimeConfigV, Store, StoreError,
};
use crate::types::ExecutionId;

verus! {

/// The map a record sequence represents: later entries win.
pub open spec fn recs_map(s: Seq<Record>) -> Map<u32, RecordV>
    decreases s.len(),
{
    if s.len() == 0 {
        Map::empty()
    } else {
        recs_map(s.drop_last()).insert(s.last().id.0, s.last()@)
    }
}

/// In-memory record store; records are appended with strictly increasing
/// ids.
pub struct MemoryStore {
    entries: Vec<Record>,
    latest_id: Option<ExecutionId>,
    runtime_config: Option<RuntimeConfig>,
}

impl MemoryStore {
    /// An empty volatile store.
    pub fn new() -> (r: MemoryStore)
        ensures
            r.inv(),
            r.records() == Map::<u32, RecordV>::empty(),
            r.config() is None,
    {
        MemoryStore { entries: Vec::new(), latest_id: None, runtime_config: None }
    }
}

proof fn lemma_recs_map_contains(s: Seq<Record>, i: int)
    requires
        0 <= i < s.len(),
        forall|a: int, b: int| #![trigger s[a], s[b]] 0 <= a < b < s.len() ==> s[a].id.0 < s[b].id.0,
    ensures
        recs_map(s).contains_key(s[i].id.0),
        recs_map(s)[s[i].id.0] == s[i]@,
    decreases s.len(),
{
    if i + 1 == s.len() {
    } else {
        assert(forall|a: int, b: int|
            #![trigger s.drop_last()[a], s.drop_last()[b]]
            0 <= a < b < s.drop_last().len() ==> s.drop_last()[a].id.0
                < s.drop_last()[b].id.0) by {
            assert(forall|a: int| 0 <= a < s.len() - 1 ==> s.drop_last()[a] == #[trigger] s[a]);
        }
        lemma_recs_map_contains(s.drop_last(), i);
        assert(s.drop_last()[i] == s[i]);
        assert(s[i].id.0 < s.last().id.0);
    }
}

proof fn lemma_recs_map_dom(s: Seq<Record>, k: u32)
    requires
        recs_map(s).contains_key(k),
    ensures
        exists|i: int| 0 <= i < s.len() && (#[trigger] s[i]).id.0 == k,
    decreases s.len(),
{
    if s.len() > 0 {
        if s.last().id.0 == k {
            assert(s[s.len() - 1].id.0 == k);
        } else {
            lemma_recs_map_dom(s.drop_last(), k);
            let i = choose|i: int|
                0 <= i < s.drop_last().len() && (#[trigger] s.drop_last()[i]).id.0 == k;
            assert(s[i].id.0 == k);
        }
    }
}

impl Store for MemoryStore {
    closed spec fn records(&self) -> Map<u32, RecordV> {
        recs_map(self.entries@)
    }

    closed spec fn config(&self) -> Option<RuntimeConfigV> {
        match self.runtime_config {
            Some(c) => Some(c@),
            None => None,
        }
    }

    closed spec fn inv(&self) -> bool {
        &&& forall|a: int, b: int|
            #![trigger self.entries@[a], self.entries@[b]]
            0 <= a < b < self.entries@.len() ==> self.entries@[a].id.0 < self.entries@[b].id.0
        &&& match self.latest_id {
            Some(id) => self.entries@.len() > 0 && self.entries@.last().id.0 == id.0,
            None => self.entries@.len() == 0,
        }
    }

    fn add_record(&mut self, record: Record) -> (r: Result<(), StoreError>)
        ensures
            r is Ok,
    {
        proof {
            assert forall|a: int| 0 <= a < old(self).entries@.len() implies recs_map(
                old(self).entries@,
            ).contains_key((#[trigger] old(self).entries@[a]).id.0) by {
                lemma_recs_map_contains(old(self).entries@, a);
            }
        }
        self.latest_id = Some(record.id);
        self.entries.push(record);
        proof {
            let oldes = old(self).entries@;
            assert(self.entries@.drop_last() =~= oldes);
            assert(self.entries@.last() == record);
            assert(forall|a: int| 0 <= a < oldes.len() ==> #[trigger] self.entries@[a] == oldes[a]);
            assert forall|a: int, b: int|
                0 <= a < b < self.entries@.len() implies (#[trigger] self.entries@[a]).id.0
                < (#[trigger] self.entries@[b]).id.0 by {
                if b == self.entries@.len() - 1 {
                    assert(recs_map(oldes).contains_key(oldes[a].id.0));
                    assert(old(self).records().contains_key(oldes[a].id.0));
                    assert(oldes[a].id.0 < record.id.0);
                } else {
                    assert(oldes[a].id.0 < oldes[b].id.0);
                }
            }
        }
        Ok(())
    }

    fn get_record(&self, id: ExecutionId) -> (r: Result<Option<Record>, StoreError>)
        ensures
            r is Ok,
    {
        let mut i: usize = self.entries.len();
        while i > 0
            invariant
                i <= self.entries@.len(),
                self.inv(),
                forall|j: int| i <= j < self.entries@.len() ==> (#[trigger] self.entries@[j]).id.0
                    != id.0,
            decreases i,
        {
            i = i - 1;
            if self.entries[i].id.0 == id.0 {
                let rec = clone_record(&self.entries[i]);
                proof {
                    lemma_recs_map_contains(self.entries@, i as int);
                }
                return Ok(Some(rec));
            }
        }
        proof {
            if recs_map(self.entries@).contains_key(id.0) {
                lemma_recs_map_dom(self.entries@, id.0);
            }
        }
        Ok(None)
    }

    fn get_latest_id(&self) -> (r: Result<Option<ExecutionId>, StoreError>)
        ensures
            r is Ok,
    {
        proof {
            match self.latest_id {
                Some(lid) => {
                    lemma_recs_map_contains(self.entries@, self.entries@.len() - 1);
                    assert forall|k: u32| self.records().contains_key(k) implies k
                        <= lid.0 by {
                        lemma_recs_map_dom(self.entries@, k);
                        let i = choose|i: int|
                            0 <= i < self.entries@.len() && (#[trigger] self.entries@[i]).id.0
                                == k;
                        if i < self.entries@.len() - 1 {
                            assert(self.entries@[i].id.0 < self.entries@.last().id.0);
                        }
                    }
                },
                None => {
                    assert(recs_map(self.entries@) =~= Map::<u32, RecordV>::empty());
                },
            }
        }
        Ok(self.latest_id)
    }

    fn get_records(&self) -> (r: Result<Vec<Record>, StoreError>)
        ensures
            r is Ok,
    {
        let mut v: Vec<Record> = Vec::new();
        let mut i: usize = 0;
        while i < self.entries.len()
            invariant
                i <= self.entries@.len(),
                self.inv(),
                v@.len() == i,
                forall|j: int| 0 <= j < i ==> #[trigger] v@[j]@ == self.entries@[j]@
                    && v@[j].id.0 == self.entries@[j].id.0,
            decreases self.entries@.len() - i,
        {
            v.push(clone_record(&self.entries[i]));
            i = i + 1;
        }
        proof {
            assert forall|j: int| 0 <= j < v@.len() implies self.records().contains_key(
                (#[trigger] v@[j]).id.0,
            ) && v@[j]@ == self.records()[v@[j].id.0] by {
                assert(v@[j]@ == self.entries@[j]@);
                assert(v@[j].id.0 == self.entries@[j].id.0);
                lemma_recs_map_contains(self.entries@, j);
                assert(recs_map(self.entries@).contains_key(self.entries@[j].id.0));
            }
            assert forall|k: u32| self.records().contains_key(k) implies exists|i2: int|
                0 <= i2 < v@.len() && (#[trigger] v@[i2]).id.0 == k by {
                lemma_recs_map_dom(self.entries@, k);
                let i2 = choose|i2: int|
                    0 <= i2 < self.entries@.len() && (#[trigger] self.entries@[i2]).id.0 == k;
                assert(v@[i2].id.0 == k);
            }
        }
        Ok(v)
    }

    fn get_runtime_config(&self) -> (r: Result<Option<RuntimeConfig>, StoreError>)
        ensures
            r is Ok,
    {
        match &self.runtime_config {
            Some(c) => Ok(
                Some(RuntimeConfig { interval: c.interval, command: c.command.clone() }),
            ),
            None => Ok(None),
        }
    }

    fn set_runtime_config(&mut self, config: RuntimeConfig) -> (r: Result<(), StoreError>)
        ensures
            r is Ok,
    {
        self.runtime_config = Some(config);
        Ok(())
    }
}

} // verus!
