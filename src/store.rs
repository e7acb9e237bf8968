use vstd::prelude::*;
use crate::embedding::{DIM, MAX_SLOT};

verus! {

/// One indexed note: its file name (the key), its text with any OCR blocks,
/// and its embedding in integer slot-sum form.
pub struct NoteRecord {
    pub filename: String,
    pub content: String,
    pub vector: Vec<u64>,
}

/// Why a snapshot could not be taken as a store.
#[derive(Clone, Copy, Debug, PartialEq, Eq)]
pub enum StoreError {
    /// The snapshot holds a vector of the wrong size or range, or two
    /// records with one file name.
    Corrupt,
}

/// The whole collection of indexed notes, in insertion order.
pub struct VectorStore {
    pub records: Vec<NoteRecord>,
}

/// A vector the ranking can score without overflow.
pub open spec fn vector_wf(v: Seq<u64>) -> bool {
    &&& v.len() == DIM
    &&& forall|k: int| 0 <= k < v.len() ==> #[trigger] v[k] <= MAX_SLOT
}

pub open spec fn record_wf(r: NoteRecord) -> bool {
    vector_wf(r.vector@)
}

/// No two records share a file name.
pub open spec fn unique_names(s: Seq<NoteRecord>) -> bool {
    forall|i: int, j: int|
        0 <= i < s.len() && 0 <= j < s.len() && i != j ==> #[trigger] s[i].filename@
            != #[trigger] s[j].filename@
}

pub open spec fn records_wf(s: Seq<NoteRecord>) -> bool {
    &&& unique_names(s)
    &&& forall|i: int| 0 <= i < s.len() ==> #[trigger] record_wf(s[i])
}

pub open spec fn has_name(s: Seq<NoteRecord>, name: Seq<char>) -> bool {
    exists|i: int| 0 <= i < s.len() && #[trigger] s[i].filename@ == name
}

/// The record sequence after inserting `r`: it takes the place of the record
/// with the same file name, or goes to the end when there is none.
pub open spec fn upserted(s: Seq<NoteRecord>, r: NoteRecord) -> Seq<NoteRecord> {
    if has_name(s, r.filename@) {
        let i = choose|i: int| 0 <= i < s.len() && #[trigger] s[i].filename@ == r.filename@;
        s.update(i, r)
    } else {
        s.push(r)
    }
}

impl VectorStore {
    pub open spec fn wf(&self) -> bool {
        records_wf(self.records@)
    }

    /// An empty store, as on first run.
    pub fn new() -> (s: Self)
        ensures
            s.records@.len() == 0,
            s.wf(),
    {
        VectorStore { records: Vec::new() }
    }

    /// The store holding `records`, if they form a valid snapshot.
    pub fn from_records(records: Vec<NoteRecord>) -> (r: Result<Self, StoreError>)
        ensures
            r is Ok <==> records_wf(records@),
            r matches Ok(s) ==> s.records@ == records@,
    {
        let n = records.len();
        let mut i: usize = 0;
        while i < n
            invariant
                n == records@.len(),
                i <= n,
                forall|a: int| 0 <= a < i ==> #[trigger] record_wf(records@[a]),
                forall|a: int, b: int|
                    0 <= a < i && 0 <= b < n && a != b ==> #[trigger] records@[a].filename@
                        != #[trigger] records@[b].filename@,
            decreases n - i,
        {
            let v = &records[i].vector;
            if v.len() != DIM {
                proof {
                    assert(!record_wf(records@[i as int]));
                }
                return Err(StoreError::Corrupt);
            }
            let mut k: usize = 0;
            while k < DIM
                invariant
                    n == records@.len(),
                    i < n,
                    v@ == records@[i as int].vector@,
                    forall|a: int| 0 <= a < i ==> #[trigger] record_wf(records@[a]),
                    forall|a: int, b: int|
                        0 <= a < i && 0 <= b < n && a != b ==> #[trigger] records@[a].filename@
                            != #[trigger] records@[b].filename@,
                    v@.len() == DIM,
                    k <= DIM,
                    forall|j: int| 0 <= j < k ==> #[trigger] v@[j] <= MAX_SLOT,
                decreases DIM - k,
            {
                if v[k] > MAX_SLOT {
                    proof {
                        assert(!record_wf(records@[i as int]));
                    }
                    return Err(StoreError::Corrupt);
                }
                k = k + 1;
            }
            let mut j: usize = 0;
            while j < n
                invariant
                    n == records@.len(),
                    i < n,
                    j <= n,
                    record_wf(records@[i as int]),
                    forall|a: int| 0 <= a < i ==> #[trigger] record_wf(records@[a]),
                    forall|a: int, b: int|
                        0 <= a < i && 0 <= b < n && a != b ==> #[trigger] records@[a].filename@
                            != #[trigger] records@[b].filename@,

                    forall|b: int|
                        0 <= b < j && b != i ==> #[trigger] records@[b].filename@ != records@[i as int].filename@,
                decreases n - j,
            {
                if j != i && records[j].filename == records[i].filename {
                    return Err(StoreError::Corrupt);
                }
                j = j + 1;
            }
            i = i + 1;
        }
        Ok(VectorStore { records })
    }

    pub fn len(&self) -> (n: usize)
        ensures
            n == self.records@.len(),
    {
        self.records.len()
    }

    /// Index of the record named `name`, if any.
    pub fn position(&self, name: &String) -> (r: Option<usize>)
        ensures
            r matches Some(i) ==> i < self.records@.len() && self.records@[i as int].filename@
                == name@,
            r is None <==> !has_name(self.records@, name@),
    {
        let mut i: usize = 0;
        while i < self.records.len()
            invariant
                i <= self.records@.len(),
                forall|j: int| 0 <= j < i ==> #[trigger] self.records@[j].filename@ != name@,
            decreases self.records@.len() - i,
        {
            if self.records[i].filename == *name {
                return Some(i);
            }
            i = i + 1;
        }
        None
    }

    /// Replaces the record with the same file name, or appends `record`.
    pub fn upsert(&mut self, record: NoteRecord)
        requires
            old(self).wf(),
            record_wf(record),
        ensures
            final(self).records@ == upserted(old(self).records@, record),
            final(self).wf(),
    {
        let ghost s = self.records@;
        let ghost name = record.filename@;
        match self.position(&record.filename) {
            Some(i) => {
                proof {
                    let c = choose|c: int| 0 <= c < s.len() && #[trigger] s[c].filename@ == name;
                    assert(s[i as int].filename@ == name);
                    assert(c == i);
                }
                self.records.set(i, record);
                proof {
                    assert(self.records@ =~= s.update(i as int, record));
                }
            },
            None => {
                self.records.push(record);
            },
        }
    }
}

} // verus!
