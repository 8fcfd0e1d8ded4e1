//! The object bucket: records keyed by kind tag and lowercased editor id.

use vstd::prelude::*;

use crate::ids::{lower, to_lowercase, bytes_eq};
use crate::lookup::{first_match, lemma_first_match};
use crate::records::{ObjectRecord, key_tag, key_tag_of, record_key};

verus! {

/// Two records fall on the same bucket key.
pub open spec fn same_key(a: ObjectRecord, b: ObjectRecord) -> bool {
    record_key(a) == record_key(b)
}

/// The records of a plugin, keyed by `(kind tag, lowercased id)`.
pub struct Objects {
    pub entries: Vec<ObjectRecord>,
}

/// The index of the first (and, in a well-formed bucket, only) record with
/// the given key, or -1.
pub open spec fn find_key(s: Seq<ObjectRecord>, tag: u32, lid: Seq<u8>) -> int {
    first_match(s, |r: ObjectRecord| key_tag(r.body) == tag && lower(r.id@) == lid)
}

/// Inserting replaces the record carrying the same key, or appends.
pub open spec fn upsert(s: Seq<ObjectRecord>, rec: ObjectRecord) -> Seq<ObjectRecord> {
    let i = find_key(s, key_tag(rec.body), lower(rec.id@));
    if i >= 0 {
        s.update(i, rec)
    } else {
        s.push(rec)
    }
}

/// No two records share a key.
pub open spec fn objects_wf(s: Seq<ObjectRecord>) -> bool {
    forall|i: int, j: int| 0 <= i < j < s.len() ==> !same_key(#[trigger] s[i], #[trigger] s[j])
}

impl Objects {
    /// An empty bucket.
    pub fn new() -> (r: Self)
        ensures
            r.entries@.len() == 0,
    {
        Objects { entries: Vec::new() }
    }

    /// The index of the record with the given tag and lowercased id.
    pub fn find(&self, tag: u32, lid: &Vec<u8>) -> (r: Option<usize>)
        ensures
            r matches Some(i) ==> i == find_key(self.entries@, tag, lid@),
            r is None ==> find_key(self.entries@, tag, lid@) == -1,
    {
        let ghost pred = |r: ObjectRecord| key_tag(r.body) == tag && lower(r.id@) == lid@;
        proof {
            lemma_first_match(self.entries@, pred);
        }
        let mut i: usize = 0;
        while i < self.entries.len()
            invariant
                i <= self.entries@.len(),
                pred == (|r: ObjectRecord| key_tag(r.body) == tag && lower(r.id@) == lid@),
                forall|j: int| 0 <= j < i ==> !pred(#[trigger] self.entries@[j]),
            decreases self.entries@.len() - i,
        {
            let entry = &self.entries[i];
            let entry_lid = to_lowercase(&entry.id);
            if key_tag_of(&entry.body) == tag && bytes_eq(&entry_lid, lid) {
                proof {
                    lemma_first_match(self.entries@, pred);
                    assert(pred(self.entries@[i as int]));
                    let f = first_match(self.entries@, pred);
                    if f > i {
                        assert(!pred(self.entries@[i as int]));
                    }
                    if 0 <= f < i {
                        assert(!pred(self.entries@[f]));
                    }
                    if f == -1 {
                        assert(!pred(self.entries@[i as int]));
                    }
                }
                return Some(i);
            }
            i = i + 1;
        }
        proof {
            lemma_first_match(self.entries@, pred);
            let f = first_match(self.entries@, pred);
            if f >= 0 {
                assert(pred(self.entries@[f]));
            }
        }
        None
    }

    /// Inserts `rec`, replacing the record with the same key if one exists.
    pub fn insert(&mut self, rec: ObjectRecord)
        ensures
            final (self).entries@ == upsert(old(self).entries@, rec),
            objects_wf(old(self).entries@) ==> objects_wf(final (self).entries@),
    {
        let ghost s0 = self.entries@;
        let ghost pred = |r: ObjectRecord| key_tag(r.body) == key_tag(rec.body) && lower(r.id@)
            == lower(rec.id@);
        proof {
            lemma_first_match(s0, pred);
        }
        let tag = key_tag_of(&rec.body);
        let lid = to_lowercase(&rec.id);
        match self.find(tag, &lid) {
            Some(i) => {
                self.entries.set(i, rec);
            },
            None => {
                self.entries.push(rec);
                proof {
                    assert forall|i: int, j: int|
                        0 <= i < j < self.entries@.len() && objects_wf(s0) implies !same_key(
                        #[trigger] self.entries@[i],
                        #[trigger] self.entries@[j],
                    ) by {
                        if j == self.entries@.len() - 1 {
                            assert(!pred(s0[i]));
                        }
                    }
                }
            },
        }
    }

    /// The number of records in the bucket.
    pub fn len(&self) -> (r: usize)
        ensures
            r == self.entries@.len(),
    {
        self.entries.len()
    }
}

} // verus!
