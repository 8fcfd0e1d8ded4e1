//! Master lists and the master-index remap.
//!
//! A plugin's references carry `(mast_index, refr_index)` keys where
//! `mast_index` indexes the plugin's own masters list (1-based; 0 is the
//! reserved local index). Before a plugin can be merged into a master whose
//! masters list differs, those indices must be rewritten. This module holds
//! the masters-list model and computes the index remap table.

use vstd::prelude::*;

use crate::ids::{id_eq, eq_ignore_case};
use crate::lookup::first_match;

verus! {

/// One entry of a header's masters list: a file name and its size in bytes.
#[derive(Debug, PartialEq, Eq)]
pub struct MasterEntry {
    pub name: Vec<u8>,
    pub size: u64,
}

impl MasterEntry {
    /// An exact copy of the entry.
    pub fn duplicate(&self) -> (r: Self)
        ensures
            r.name@ == self.name@,
            r.size == self.size,
    {
        let name = self.name.clone();
        proof {
            assert(name@ =~= self.name@);
        }
        MasterEntry { name, size: self.size }
    }
}

/// The single header record of a plugin: its masters list plus a handle to
/// the rest of the decoded header (author, description, version), which the
/// merge carries through unchanged.
pub struct Header {
    pub masters: Vec<MasterEntry>,
    pub payload: usize,
}

impl Header {
    /// An exact copy of the header.
    pub fn duplicate(&self) -> (r: Self)
        ensures
            masters_exact_eq(r.masters@, self.masters@),
            r.payload == self.payload,
    {
        let mut masters: Vec<MasterEntry> = Vec::new();
        let mut i: usize = 0;
        while i < self.masters.len()
            invariant
                i <= self.masters.len(),
                masters@.len() == i,
                forall|j: int|
                    0 <= j < i ==> masters@[j].name@ == self.masters@[j].name@
                        && masters@[j].size == self.masters@[j].size,
            decreases self.masters.len() - i,
        {
            masters.push(self.masters[i].duplicate());
            i = i + 1;
        }
        Header { masters, payload: self.payload }
    }
}

/// Exact (case-sensitive) equality of two masters lists.
pub open spec fn masters_exact_eq(a: Seq<MasterEntry>, b: Seq<MasterEntry>) -> bool {
    &&& a.len() == b.len()
    &&& forall|i: int| 0 <= i < a.len() ==> a[i].name@ == b[i].name@ && a[i].size == b[i].size
}

/// `i` is the first position in `ms` whose name equals `name` up to case.
pub open spec fn is_first_occurrence(ms: Seq<MasterEntry>, i: int, name: Seq<u8>) -> bool {
    &&& 0 <= i < ms.len()
    &&& id_eq(ms[i].name@, name)
    &&& forall|j: int| 0 <= j < i ==> !id_eq(#[trigger] ms[j].name@, name)
}

/// A name has at most one first occurrence.
pub proof fn lemma_first_occurrence_unique(ms: Seq<MasterEntry>, i: int, j: int, name: Seq<u8>)
    requires
        is_first_occurrence(ms, i, name),
        is_first_occurrence(ms, j, name),
    ensures
        i == j,
{
    if i < j {
        assert(id_eq(ms[i].name@, name));
        assert(false);
    }
    if j < i {
        assert(id_eq(ms[j].name@, name));
        assert(false);
    }
}

/// Finds the first entry of `ms` whose name equals `name` up to case.
pub fn find_master(ms: &Vec<MasterEntry>, name: &Vec<u8>) -> (r: Option<usize>)
    ensures
        match r {
            Some(i) => is_first_occurrence(ms@, i as int, name@),
            None => forall|j: int| 0 <= j < ms@.len() ==> !id_eq(#[trigger] ms@[j].name@, name@),
        },
{
    let mut i: usize = 0;
    while i < ms.len()
        invariant
            i <= ms.len(),
            forall|j: int| 0 <= j < i ==> !id_eq(#[trigger] ms@[j].name@, name@),
        decreases ms.len() - i,
    {
        if eq_ignore_case(&ms[i].name, name) {
            return Some(i);
        }
        i = i + 1;
    }
    None
}

/// Entry `j` of the new masters list is the first occurrence of a plugin
/// master that does not name the merge target.
pub open spec fn appended_from_plugin(
    pm: Seq<MasterEntry>,
    target: Seq<u8>,
    nm: Seq<MasterEntry>,
    j: int,
) -> bool {
    exists|i: int|
        #[trigger] is_first_occurrence(pm, i, nm[j].name@) && nm[j].name@ == pm[i].name@
            && nm[j].size == pm[i].size && !id_eq(pm[i].name@, target)
}

/// What the remap construction guarantees (see `get_index_remap`):
///
/// - the remap table has one entry per plugin master plus the reserved
///   0 slot, which maps to 0;
/// - the new masters list extends the merge target's own list, order kept;
/// - a plugin master naming the merge target remaps to 0 (local);
/// - every other plugin master remaps to the 1-based position of the first
///   entry of the new list carrying its name;
/// - every appended entry is the first occurrence of a non-target plugin
///   master whose name was absent from the target's list, appended in
///   first-seen order without duplicates.
pub open spec fn remap_props(
    pm: Seq<MasterEntry>,
    mm: Seq<MasterEntry>,
    target: Seq<u8>,
    nm: Seq<MasterEntry>,
    rm: Seq<u32>,
) -> bool {
    &&& rm.len() == pm.len() + 1
    &&& rm[0] == 0
    &&& mm.len() <= nm.len() <= mm.len() + pm.len()
    &&& forall|i: int|
        0 <= i < mm.len() ==> nm[i].name@ == mm[i].name@ && nm[i].size == mm[i].size
    &&& forall|i: int|
        1 <= i <= pm.len() ==> ((#[trigger] rm[i] == 0) <==> id_eq(pm[i - 1].name@, target))
    &&& forall|i: int|
        1 <= i <= pm.len() && #[trigger] rm[i] != 0 ==> 1 <= rm[i] <= nm.len()
            && is_first_occurrence(nm, rm[i] - 1, pm[i - 1].name@)
    &&& forall|j: int| mm.len() <= j < nm.len() ==> #[trigger] appended_from_plugin(pm, target, nm, j)
    &&& forall|j: int, k: int|
        mm.len() <= j < nm.len() && 0 <= k < j ==> !id_eq(
            #[trigger] nm[k].name@,
            #[trigger] nm[j].name@,
        )
    &&& forall|j1: int, j2: int, i1: int, i2: int|
        mm.len() <= j1 < j2 < nm.len() && #[trigger] is_first_occurrence(pm, i1, nm[j1].name@)
            && #[trigger] is_first_occurrence(pm, i2, nm[j2].name@) ==> i1 < i2
}

/// The identity remap: every index maps to itself.
pub open spec fn identity_remap(n: int) -> Seq<u32> {
    Seq::new(n as nat, |i: int| i as u32)
}

/// Computes the extended masters list and the index remap table for merging
/// a plugin whose masters list is `plugin_masters` into the master named
/// `target_master` whose own masters list is `master_masters`.
///
/// The first result is the new masters list, or `None` when it equals
/// `master_masters` exactly; the second is the remap table, or `None` when
/// it is the identity. Either way, the list and table that the caller should
/// use (the returned ones, or the unchanged inputs) satisfy `remap_props`.
pub fn get_index_remap(
    plugin_masters: &Vec<MasterEntry>,
    master_masters: &Vec<MasterEntry>,
    target_master: &Vec<u8>,
) -> (r: (Option<Vec<MasterEntry>>, Option<Vec<u32>>))
    requires
        plugin_masters@.len() + master_masters@.len() < 0xFFFF_FFFFusize,
    ensures
        remap_props(
            plugin_masters@,
            master_masters@,
            target_master@,
            match r.0 {
                Some(nm) => nm@,
                None => master_masters@,
            },
            match r.1 {
                Some(rm) => rm@,
                None => identity_remap(plugin_masters@.len() as int + 1),
            },
        ),
        r.0 matches Some(nm) ==> !masters_exact_eq(nm@, master_masters@),
        r.1 matches Some(rm) ==> exists|i: int| 0 <= i < rm@.len() && rm@[i] != i,
{
    let ghost pm = plugin_masters@;
    let ghost mm = master_masters@;
    let ghost target = target_master@;

    let mut new_masters: Vec<MasterEntry> = Vec::new();
    let mut index_remap: Vec<u32> = Vec::new();

    let mut i: usize = 0;
    while i < master_masters.len()
        invariant
            mm == master_masters@,
            i <= mm.len(),
            new_masters@.len() == i,
            forall|j: int|
                0 <= j < i ==> new_masters@[j].name@ == mm[j].name@ && new_masters@[j].size
                    == mm[j].size,
        decreases master_masters.len() - i,
    {
        new_masters.push(master_masters[i].duplicate());
        i = i + 1;
    }

    index_remap.push(0);

    // Ghost first-occurrence witnesses for the entries appended so far.
    let ghost mut ws: Seq<int> = Seq::empty();

    let mut k: usize = 0;
    while k < plugin_masters.len()
        invariant
            pm == plugin_masters@,
            mm == master_masters@,
            target == target_master@,
            k <= pm.len(),
            pm.len() + mm.len() < 0xFFFF_FFFFusize,
            forall|j: int, k2: int|
                mm.len() <= j < new_masters@.len() && 0 <= k2 < j ==> !id_eq(
                    #[trigger] new_masters@[k2].name@,
                    #[trigger] new_masters@[j].name@,
                ),
            index_remap@.len() == k + 1,
            index_remap@[0] == 0,
            mm.len() <= new_masters@.len() <= mm.len() + k,
            forall|j: int|
                0 <= j < mm.len() ==> new_masters@[j].name@ == mm[j].name@
                    && new_masters@[j].size == mm[j].size,
            forall|i: int|
                1 <= i <= k ==> ((#[trigger] index_remap@[i] == 0) <==> id_eq(
                    pm[i - 1].name@,
                    target,
                )),
            forall|i: int|
                1 <= i <= k && #[trigger] index_remap@[i] != 0 ==> 1 <= index_remap@[i]
                    <= new_masters@.len() && is_first_occurrence(
                    new_masters@,
                    index_remap@[i] - 1,
                    pm[i - 1].name@,
                ),
            ws.len() == new_masters@.len() - mm.len(),
            forall|j: int|
                0 <= j < ws.len() ==> is_first_occurrence(
                    pm,
                    #[trigger] ws[j],
                    new_masters@[mm.len() + j].name@,
                ) && ws[j] < k && new_masters@[mm.len() + j].name@ == pm[ws[j]].name@
                    && new_masters@[mm.len() + j].size == pm[ws[j]].size && !id_eq(
                    pm[ws[j]].name@,
                    target,
                ),
            forall|j1: int, j2: int| 0 <= j1 < j2 < ws.len() ==> ws[j1] < ws[j2],
        decreases plugin_masters.len() - k,
    {
        let entry = &plugin_masters[k];
        if eq_ignore_case(&entry.name, target_master) {
            index_remap.push(0);
        } else {
            match find_master(&new_masters, &entry.name) {
                Some(p) => {
                    index_remap.push((p + 1) as u32);
                },
                None => {
                    proof {
                        // `pm[k]` occurs for the first time: any earlier
                        // occurrence would have put its name into
                        // `new_masters` (or matched the target).
                        assert forall|j: int| 0 <= j < k implies !id_eq(
                            #[trigger] pm[j].name@,
                            pm[k as int].name@,
                        ) by {
                            if id_eq(pm[j].name@, pm[k as int].name@) {
                                assert((index_remap@[j + 1] == 0) <==> id_eq(
                                    pm[j].name@,
                                    target,
                                ));
                                if index_remap@[j + 1] == 0 {
                                    assert(id_eq(pm[k as int].name@, target));
                                } else {
                                    let p = index_remap@[j + 1] - 1;
                                    assert(id_eq(new_masters@[p].name@, pm[j].name@));
                                    assert(!id_eq(new_masters@[p].name@, pm[k as int].name@));
                                }
                            }
                        }
                        ws = ws.push(k as int);
                    }
                    new_masters.push(entry.duplicate());
                    index_remap.push(new_masters.len() as u32);
                },
            }
        }
        k = k + 1;
    }

    let ghost nm_final = new_masters@;
    let ghost rm_final = index_remap@;

    proof {
        assert forall|j1: int, j2: int, i1: int, i2: int|
            mm.len() <= j1 < j2 < nm_final.len() && #[trigger] is_first_occurrence(
                pm,
                i1,
                nm_final[j1].name@,
            ) && #[trigger] is_first_occurrence(pm, i2, nm_final[j2].name@) implies i1 < i2 by {
            let w1 = ws[j1 - mm.len()];
            let w2 = ws[j2 - mm.len()];
            lemma_first_occurrence_unique(pm, i1, w1, nm_final[j1].name@);
            lemma_first_occurrence_unique(pm, i2, w2, nm_final[j2].name@);
        }
        assert forall|j: int| mm.len() <= j < nm_final.len() implies appended_from_plugin(
            pm,
            target,
            nm_final,
            j,
        ) by {
            let w = ws[j - mm.len()];
            assert(is_first_occurrence(pm, w, nm_final[j].name@) && nm_final[j].name@
                == pm[w].name@ && nm_final[j].size == pm[w].size && !id_eq(pm[w].name@, target));
        }
        assert(remap_props(pm, mm, target, nm_final, rm_final));
    }

    let masters_changed = !masters_equal(&new_masters, master_masters);
    let indices_changed = !remap_is_identity(&index_remap);

    proof {
        if !masters_changed {
            assert(remap_props(pm, mm, target, mm, rm_final));
        }
        if !indices_changed {
            assert(rm_final =~= identity_remap(pm.len() as int + 1));
        }
        if indices_changed {
            assert(!(rm_final =~= identity_remap(rm_final.len() as int)));
            assert(exists|i: int| 0 <= i < rm_final.len() && rm_final[i] != identity_remap(
                rm_final.len() as int,
            )[i]);
            let i = choose|i: int|
                0 <= i < rm_final.len() && rm_final[i] != identity_remap(
                    rm_final.len() as int,
                )[i];
            assert(identity_remap(rm_final.len() as int)[i] == i as u32);
            assert(rm_final[i] != i);
        }
    }

    (
        if masters_changed {
            Some(new_masters)
        } else {
            None
        },
        if indices_changed {
            Some(index_remap)
        } else {
            None
        },
    )
}

/// Exact comparison of two masters lists.
pub fn masters_equal(a: &Vec<MasterEntry>, b: &Vec<MasterEntry>) -> (r: bool)
    ensures
        r == masters_exact_eq(a@, b@),
{
    if a.len() != b.len() {
        return false;
    }
    let mut i: usize = 0;
    while i < a.len()
        invariant
            i <= a@.len(),
            a@.len() == b@.len(),
            forall|j: int| 0 <= j < i ==> a@[j].name@ == b@[j].name@ && a@[j].size == b@[j].size,
        decreases a.len() - i,
    {
        let names_eq = a[i].name == b[i].name;
        proof {
            if names_eq {
                assert(a@[i as int].name@ =~= b@[i as int].name@);
            } else {
                assert(!(a@[i as int].name@ =~= b@[i as int].name@));
            }
        }
        if !names_eq || a[i].size != b[i].size {
            return false;
        }
        i = i + 1;
    }
    true
}

/// True when the table maps every index to itself.
pub fn remap_is_identity(rm: &Vec<u32>) -> (r: bool)
    requires
        rm@.len() <= 0xFFFF_FFFFusize,
    ensures
        r == (rm@ =~= identity_remap(rm@.len() as int)),
{
    let mut i: usize = 0;
    while i < rm.len()
        invariant
            i <= rm@.len(),
            rm@.len() <= 0xFFFF_FFFFusize,
            forall|j: int| 0 <= j < i ==> rm@[j] == j,
        decreases rm.len() - i,
    {
        if rm[i] != i as u32 {
            proof {
                assert(rm@[i as int] != i);
                assert(identity_remap(rm@.len() as int)[i as int] == i as u32);
            }
            return false;
        }
        proof {
            assert(rm@[i as int] == i);
        }
        i = i + 1;
    }
    true
}

} // verus!

verus! {

/// Why a merge cannot proceed.
#[derive(Debug, PartialEq, Eq, Clone, Copy)]
pub enum MergeError {
    /// The merge target is in the plugin's masters list but not last.
    MasterNotLast,
}

impl MergeError {
    /// A human-readable account of the error.
    pub fn message(&self) -> (r: &'static str)
        ensures
            r@.len() > 0,
    {
        let m = "merge target must be the last master in the plugin's master list";
        proof {
            reveal_strlit("merge target must be the last master in the plugin's master list");
        }
        m
    }
}

impl Header {
    /// Ensures the masters list names the merge target: absent, the name is
    /// appended with the file's size; present anywhere but last, the merge
    /// is refused.
    pub fn ensure_master_present(&mut self, name: &Vec<u8>, size: u64) -> (r: Result<
        (),
        MergeError,
    >)
        ensures
            old(self).payload == final (self).payload,
            match r {
                Ok(_) => {
                    let i = first_match(
                        old(self).masters@,
                        |m: MasterEntry| id_eq(m.name@, name@),
                    );
                    if i >= 0 {
                        i == old(self).masters@.len() - 1 && final (self).masters@ == old(
                            self,
                        ).masters@
                    } else {
                        final (self).masters@.len() == old(self).masters@.len() + 1 && final (
                        self).masters@ =~= old(self).masters@.push(
                            final (self).masters@[old(self).masters@.len() as int],
                        ) && final (self).masters@[old(self).masters@.len() as int].name@ == name@
                            && final (self).masters@[old(self).masters@.len() as int].size == size
                    }
                },
                Err(e) => {
                    let i = first_match(
                        old(self).masters@,
                        |m: MasterEntry| id_eq(m.name@, name@),
                    );
                    e == MergeError::MasterNotLast && 0 <= i < old(self).masters@.len() - 1
                        && final (self).masters@ == old(self).masters@
                },
            },
    {
        let ghost pred = |m: MasterEntry| id_eq(m.name@, name@);
        proof {
            crate::lookup::lemma_first_match(self.masters@, pred);
        }
        match find_master(&self.masters, name) {
            Some(i) => {
                proof {
                    crate::lookup::lemma_first_match(self.masters@, pred);
                    let f = first_match(self.masters@, pred);
                    assert(pred(self.masters@[i as int]));
                    if f > i {
                        assert(!pred(self.masters@[i as int]));
                    }
                    if 0 <= f < i {
                        assert(!pred(self.masters@[f]));
                    }
                    if f == -1 {
                        assert(!pred(self.masters@[i as int]));
                    }
                }
                if i != self.masters.len() - 1 {
                    Err(MergeError::MasterNotLast)
                } else {
                    Ok(())
                }
            },
            None => {
                proof {
                    crate::lookup::lemma_first_match(self.masters@, pred);
                    let f = first_match(self.masters@, pred);
                    if f >= 0 {
                        assert(pred(self.masters@[f]));
                    }
                }
                self.masters.push(MasterEntry { name: crate::ids::dup_bytes(name), size });
                Ok(())
            },
        }
    }
}

} // verus!
