//! Applying the master-index remap to a plugin's reference tables.
//!
//! After the remap table is computed (see `crate::masters`), every reference
//! key `(mast_index, refr_index)` of the plugin is rewritten: a local
//! reference (`mast_index == 0`) receives a fresh `refr_index` drawn from a
//! running counter that starts past the merge target's own local indices, so
//! renumbered locals collide neither with each other nor with the target's;
//! a non-local reference keeps its `refr_index` and has its `mast_index` sent
//! through the table.

use vstd::prelude::*;

use crate::cells::{CellData, ExteriorEntry, InteriorEntry, RefEntry, refs_wf};
use crate::plugin::PluginData;

verus! {

/// How many references of `s` are local.
pub open spec fn local_count(s: Seq<RefEntry>) -> int
    decreases s.len(),
{
    if s.len() == 0 {
        0
    } else {
        local_count(s.drop_last()) + if s[s.len() - 1].mast_index == 0 {
            1int
        } else {
            0int
        }
    }
}

/// One reference after the remap, where `idx` is the fresh index handed to
/// it if it is local.
pub open spec fn remap_one(r: RefEntry, rm: Seq<u32>, idx: int) -> RefEntry {
    if r.mast_index == 0 {
        RefEntry {
            mast_index: 0,
            refr_index: idx as u32,
            id: r.id,
            deleted: r.deleted,
            moved_cell: r.moved_cell,
            translation: r.translation,
            rotation: r.rotation,
            scale: r.scale,
            payload: r.payload,
        }
    } else {
        RefEntry {
            mast_index: rm[r.mast_index as int],
            refr_index: r.refr_index,
            id: r.id,
            deleted: r.deleted,
            moved_cell: r.moved_cell,
            translation: r.translation,
            rotation: r.rotation,
            scale: r.scale,
            payload: r.payload,
        }
    }
}

/// A whole reference table after the remap, with fresh local indices counted
/// from `start` in table order.
pub open spec fn remapped_refs(s: Seq<RefEntry>, rm: Seq<u32>, start: int) -> Seq<RefEntry> {
    Seq::new(s.len(), |k: int| remap_one(s[k], rm, start + local_count(s.take(k))))
}

/// Every reference's `mast_index` indexes the remap table.
pub open spec fn refs_mast_valid(s: Seq<RefEntry>, n: int) -> bool {
    forall|k: int| 0 <= k < s.len() ==> (#[trigger] s[k]).mast_index < n
}

pub proof fn lemma_local_count_bounds(s: Seq<RefEntry>)
    ensures
        0 <= local_count(s) <= s.len(),
    decreases s.len(),
{
    if s.len() > 0 {
        lemma_local_count_bounds(s.drop_last());
    }
}

pub proof fn lemma_local_count_take_step(s: Seq<RefEntry>, k: int)
    requires
        0 <= k < s.len(),
    ensures
        local_count(s.take(k + 1)) == local_count(s.take(k)) + if s[k].mast_index == 0 {
            1int
        } else {
            0int
        },
{
    assert(s.take(k + 1).drop_last() =~= s.take(k));
    assert(s.take(k + 1)[k] == s[k]);
}

pub proof fn lemma_local_count_take_mono(s: Seq<RefEntry>, a: int, b: int)
    requires
        0 <= a <= b <= s.len(),
    ensures
        local_count(s.take(a)) <= local_count(s.take(b)),
    decreases b - a,
{
    if a < b {
        lemma_local_count_take_step(s, b - 1);
        lemma_local_count_take_mono(s, a, b - 1);
    }
}

pub proof fn lemma_local_count_take_all(s: Seq<RefEntry>)
    ensures
        local_count(s.take(s.len() as int)) == local_count(s),
{
    assert(s.take(s.len() as int) =~= s);
}

/// A local reference strictly raises the count of every longer prefix.
pub proof fn lemma_local_count_strict(s: Seq<RefEntry>, i: int, j: int)
    requires
        0 <= i < j <= s.len(),
        s[i].mast_index == 0,
    ensures
        local_count(s.take(i)) < local_count(s.take(j)),
{
    lemma_local_count_take_step(s, i);
    lemma_local_count_take_mono(s, i + 1, j);
}

/// Rewrites one reference table in place; `next` is the running counter for
/// fresh local indices.
pub fn apply_refs_remap(refs: &mut Vec<RefEntry>, rm: &Vec<u32>, next: &mut u32)
    requires
        *old(next) + local_count(old(refs)@) <= 0xFFFF_FFFFusize,
        refs_mast_valid(old(refs)@, rm@.len() as int),
    ensures
        final (refs)@ == remapped_refs(old(refs)@, rm@, *old(next) as int),
        *final (next) == *old(next) + local_count(old(refs)@),
{
    let ghost s0 = refs@;
    let ghost start = *next as int;
    proof {
        lemma_local_count_bounds(s0);
    }
    let mut k: usize = 0;
    while k < refs.len()
        invariant
            k <= s0.len(),
            refs@.len() == s0.len(),
            start + local_count(s0) <= 0xFFFF_FFFFusize,
            refs_mast_valid(s0, rm@.len() as int),
            forall|j: int| k <= j < s0.len() ==> refs@[j] == s0[j],
            forall|j: int|
                0 <= j < k ==> refs@[j] == remap_one(s0[j], rm@, start + local_count(s0.take(j))),
            *next == start + local_count(s0.take(k as int)),
        decreases s0.len() - k,
    {
        proof {
            lemma_local_count_take_step(s0, k as int);
            lemma_local_count_take_mono(s0, k as int + 1, s0.len() as int);
            lemma_local_count_take_all(s0);
            lemma_local_count_take_mono(s0, 0, k as int);
            lemma_local_count_bounds(s0.take(k as int));
        }
        let ghost pre = refs@;
        let mut e = refs.remove(k);
        proof {
            assert(pre[k as int] == s0[k as int]);
        }
        if e.mast_index == 0 {
            e.refr_index = *next;
            *next = *next + 1;
        } else {
            e.mast_index = rm[e.mast_index as usize];
        }
        refs.insert(k, e);
        proof {
            assert(refs@ =~= pre.update(
                k as int,
                remap_one(s0[k as int], rm@, start + local_count(s0.take(k as int))),
            ));
        }
        k = k + 1;
    }
    proof {
        lemma_local_count_take_all(s0);
        assert(refs@ =~= remapped_refs(s0, rm@, start));
    }
}

/// The remap sends distinct keys to distinct keys: locals are renumbered in
/// order from `start`, and non-local keys go through an injective table that
/// maps no entry to 0. So the rewritten table keeps its keys pairwise
/// distinct, and every local key is fresh (at or past `start`): in the
/// merged master, no two surviving references share a key unless both are
/// non-local and already shared it.
pub proof fn lemma_remap_preserves_uniqueness(s: Seq<RefEntry>, rm: Seq<u32>, start: int)
    requires
        refs_wf(s),
        refs_mast_valid(s, rm.len() as int),
        start >= 0,
        start + local_count(s) <= 0xFFFF_FFFF,
        forall|m: int| 1 <= m < rm.len() ==> (#[trigger] rm[m]) != 0,
        forall|m1: int, m2: int|
            1 <= m1 < rm.len() && 1 <= m2 < rm.len() && #[trigger] rm[m1] == #[trigger] rm[m2]
                ==> m1 == m2,
    ensures
        refs_wf(remapped_refs(s, rm, start)),
        forall|k: int|
            0 <= k < s.len() && (#[trigger] remapped_refs(s, rm, start)[k]).mast_index == 0
                ==> remapped_refs(s, rm, start)[k].refr_index >= start,
{
    let t = remapped_refs(s, rm, start);
    assert forall|i: int, j: int| 0 <= i < j < t.len() implies ((#[trigger] t[i]).mast_index,
    t[i].refr_index) != ((#[trigger] t[j]).mast_index, t[j].refr_index) by {
        lemma_local_count_bounds(s.take(i));
        lemma_local_count_bounds(s.take(j));
        lemma_local_count_take_mono(s, j, s.len() as int);
        lemma_local_count_take_all(s);
        if s[i].mast_index == 0 && s[j].mast_index == 0 {
            lemma_local_count_strict(s, i, j);
        } else if s[i].mast_index != 0 && s[j].mast_index != 0 {
            if t[i].mast_index == t[j].mast_index && t[i].refr_index == t[j].refr_index {
                assert(rm[s[i].mast_index as int] == rm[s[j].mast_index as int]);
                assert(s[i].mast_index == s[j].mast_index);
                assert(s[i].refr_index == s[j].refr_index);
            }
        }
    }
    assert forall|k: int|
        0 <= k < s.len() && (#[trigger] t[k]).mast_index == 0 implies t[k].refr_index
        >= start by {
        lemma_local_count_bounds(s.take(k));
        lemma_local_count_take_mono(s, k, s.len() as int);
        lemma_local_count_take_all(s);
        if s[k].mast_index != 0 {
            assert(rm[s[k].mast_index as int] != 0);
        }
    }
}

/// Sum of local reference counts over the exterior entries.
pub open spec fn ext_locals(s: Seq<ExteriorEntry>) -> int
    decreases s.len(),
{
    if s.len() == 0 {
        0
    } else {
        ext_locals(s.drop_last()) + match s[s.len() - 1].slot.cell {
            Some(c) => local_count(c.references@),
            None => 0int,
        }
    }
}

/// Sum of local reference counts over the interior entries.
pub open spec fn int_locals(s: Seq<InteriorEntry>) -> int
    decreases s.len(),
{
    if s.len() == 0 {
        0
    } else {
        int_locals(s.drop_last()) + match s[s.len() - 1].slot.cell {
            Some(c) => local_count(c.references@),
            None => 0int,
        }
    }
}

pub proof fn lemma_ext_locals_bounds(s: Seq<ExteriorEntry>)
    ensures
        0 <= ext_locals(s),
    decreases s.len(),
{
    if s.len() > 0 {
        lemma_ext_locals_bounds(s.drop_last());
        match s[s.len() - 1].slot.cell {
            Some(c) => lemma_local_count_bounds(c.references@),
            None => (),
        }
    }
}

pub proof fn lemma_int_locals_bounds(s: Seq<InteriorEntry>)
    ensures
        0 <= int_locals(s),
    decreases s.len(),
{
    if s.len() > 0 {
        lemma_int_locals_bounds(s.drop_last());
        match s[s.len() - 1].slot.cell {
            Some(c) => lemma_local_count_bounds(c.references@),
            None => (),
        }
    }
}

pub proof fn lemma_ext_locals_take_step(s: Seq<ExteriorEntry>, k: int)
    requires
        0 <= k < s.len(),
    ensures
        ext_locals(s.take(k + 1)) == ext_locals(s.take(k)) + match s[k].slot.cell {
            Some(c) => local_count(c.references@),
            None => 0int,
        },
{
    assert(s.take(k + 1).drop_last() =~= s.take(k));
    assert(s.take(k + 1)[k] == s[k]);
}

pub proof fn lemma_int_locals_take_step(s: Seq<InteriorEntry>, k: int)
    requires
        0 <= k < s.len(),
    ensures
        int_locals(s.take(k + 1)) == int_locals(s.take(k)) + match s[k].slot.cell {
            Some(c) => local_count(c.references@),
            None => 0int,
        },
{
    assert(s.take(k + 1).drop_last() =~= s.take(k));
    assert(s.take(k + 1)[k] == s[k]);
}

pub proof fn lemma_ext_locals_take_mono(s: Seq<ExteriorEntry>, a: int, b: int)
    requires
        0 <= a <= b <= s.len(),
    ensures
        ext_locals(s.take(a)) <= ext_locals(s.take(b)),
    decreases b - a,
{
    if a < b {
        lemma_ext_locals_take_step(s, b - 1);
        lemma_ext_locals_take_mono(s, a, b - 1);
        match s[b - 1].slot.cell {
            Some(c) => lemma_local_count_bounds(c.references@),
            None => (),
        }
    }
}

pub proof fn lemma_int_locals_take_mono(s: Seq<InteriorEntry>, a: int, b: int)
    requires
        0 <= a <= b <= s.len(),
    ensures
        int_locals(s.take(a)) <= int_locals(s.take(b)),
    decreases b - a,
{
    if a < b {
        lemma_int_locals_take_step(s, b - 1);
        lemma_int_locals_take_mono(s, a, b - 1);
        match s[b - 1].slot.cell {
            Some(c) => lemma_local_count_bounds(c.references@),
            None => (),
        }
    }
}

pub proof fn lemma_ext_locals_take_all(s: Seq<ExteriorEntry>)
    ensures
        ext_locals(s.take(s.len() as int)) == ext_locals(s),
{
    assert(s.take(s.len() as int) =~= s);
}

pub proof fn lemma_int_locals_take_all(s: Seq<InteriorEntry>)
    ensures
        int_locals(s.take(s.len() as int)) == int_locals(s),
{
    assert(s.take(s.len() as int) =~= s);
}

/// All local references of the plugin's cells, counted together.
pub open spec fn cells_total_locals(cells: crate::cells::Cells) -> int {
    ext_locals(cells.exteriors@) + int_locals(cells.interiors@)
}

/// `new` is `old` with its reference table rewritten; every other field is
/// kept.
pub open spec fn cell_remapped(old: CellData, new: CellData, rm: Seq<u32>, start: int) -> bool {
    &&& new.name == old.name
    &&& new.deleted == old.deleted
    &&& new.ignored == old.ignored
    &&& new.is_interior == old.is_interior
    &&& new.grid == old.grid
    &&& new.region == old.region
    &&& new.map_color == old.map_color
    &&& new.water_height_bits == old.water_height_bits
    &&& new.atmosphere_payload == old.atmosphere_payload
    &&& new.data_payload == old.data_payload
    &&& new.references@ == remapped_refs(old.references@, rm, start)
}

/// `n` holds `o`'s cells with every reference table rewritten through
/// `rm`, fresh local indices counted from `start`, exteriors first.
pub open spec fn cells_remapped(o: crate::cells::Cells, n: crate::cells::Cells, rm: Seq<u32>, start: int) -> bool {
    &&& n.exteriors@.len() == o.exteriors@.len()
    &&& n.interiors@.len() == o.interiors@.len()
    &&& forall|i: int|
        0 <= i < o.exteriors@.len() ==> {
            let oe = #[trigger] o.exteriors@[i];
            let ne = n.exteriors@[i];
            ne.coords == oe.coords && ne.slot.landscape == oe.slot.landscape
                && ne.slot.pathgrid == oe.slot.pathgrid && match oe.slot.cell {
                Some(c) => ne.slot.cell matches Some(c2) && cell_remapped(
                    c,
                    c2,
                    rm,
                    start + ext_locals(o.exteriors@.take(i)),
                ),
                None => ne.slot.cell is None,
            }
        }
    &&& forall|i: int|
        0 <= i < o.interiors@.len() ==> {
            let oe = #[trigger] o.interiors@[i];
            let ne = n.interiors@[i];
            ne.name@ == oe.name@ && ne.slot.pathgrid == oe.slot.pathgrid && match oe.slot.cell {
                Some(c) => ne.slot.cell matches Some(c2) && cell_remapped(
                    c,
                    c2,
                    rm,
                    start + ext_locals(o.exteriors@) + int_locals(o.interiors@.take(i)),
                ),
                None => ne.slot.cell is None,
            }
        }
}

/// Every `mast_index` stored in the plugin's cells indexes the remap table.
pub open spec fn cells_mast_valid(cells: crate::cells::Cells, n: int) -> bool {
    &&& forall|i: int|
        0 <= i < cells.exteriors@.len() ==> match (#[trigger] cells.exteriors@[i]).slot.cell {
            Some(c) => refs_mast_valid(c.references@, n),
            None => true,
        }
    &&& forall|i: int|
        0 <= i < cells.interiors@.len() ==> match (#[trigger] cells.interiors@[i]).slot.cell {
            Some(c) => refs_mast_valid(c.references@, n),
            None => true,
        }
}

impl PluginData {
    /// Rewrites every reference key of every cell through the remap table,
    /// renumbering local references from `start_index` on, exteriors first.
    pub fn apply_index_remap(&mut self, rm: &Vec<u32>, start_index: u32)
        requires
            cells_mast_valid(old(self).cells, rm@.len() as int),
            start_index + cells_total_locals(old(self).cells) <= 0xFFFF_FFFFusize,
        ensures
            final (self).header == old(self).header,
            final (self).objects.entries@ == old(self).objects.entries@,
            final (self).dialogues.entries@ == old(self).dialogues.entries@,
            cells_remapped(old(self).cells, final (self).cells, rm@, start_index as int),
    {
        let ghost ext0 = self.cells.exteriors@;
        let ghost int0 = self.cells.interiors@;
        let ghost start = start_index as int;
        proof {
            lemma_ext_locals_bounds(ext0);
            lemma_int_locals_bounds(int0);
        }
        let mut next: u32 = start_index;
        let mut i: usize = 0;
        while i < self.cells.exteriors.len()
            invariant
                i <= ext0.len(),
                self.cells.exteriors@.len() == ext0.len(),
                self.cells.interiors@ == int0,
                self.header == old(self).header,
                self.objects.entries@ == old(self).objects.entries@,
                self.dialogues.entries@ == old(self).dialogues.entries@,
                start + ext_locals(ext0) + int_locals(int0) <= 0xFFFF_FFFFusize,
                cells_mast_valid(old(self).cells, rm@.len() as int),
                old(self).cells.exteriors@ == ext0,
                old(self).cells.interiors@ == int0,
                next == start + ext_locals(ext0.take(i as int)),
                forall|j: int| i <= j < ext0.len() ==> self.cells.exteriors@[j] == ext0[j],
                forall|j: int|
                    0 <= j < i ==> {
                        let o = #[trigger] ext0[j];
                        let n = self.cells.exteriors@[j];
                        n.coords == o.coords && n.slot.landscape == o.slot.landscape
                            && n.slot.pathgrid == o.slot.pathgrid && match o.slot.cell {
                            Some(c) => n.slot.cell matches Some(c2) && cell_remapped(
                                c,
                                c2,
                                rm@,
                                start + ext_locals(ext0.take(j)),
                            ),
                            None => n.slot.cell is None,
                        }
                    },
            decreases ext0.len() - i,
        {
            proof {
                lemma_ext_locals_take_step(ext0, i as int);
                lemma_ext_locals_take_mono(ext0, i as int + 1, ext0.len() as int);
                lemma_ext_locals_take_all(ext0);
                lemma_int_locals_bounds(int0);
                match ext0[i as int].slot.cell {
                    Some(c) => lemma_local_count_bounds(c.references@),
                    None => (),
                }
            }
            let ghost pre = self.cells.exteriors@;
            let mut entry = self.cells.exteriors.remove(i);
            if let Some(cell) = &mut entry.slot.cell {
                apply_refs_remap(&mut cell.references, rm, &mut next);
            }
            self.cells.exteriors.insert(i, entry);
            proof {
                assert(self.cells.exteriors@ =~= pre.update(
                    i as int,
                    self.cells.exteriors@[i as int],
                ));
            }
            i = i + 1;
        }
        proof {
            lemma_ext_locals_take_all(ext0);
        }
        let mut i2: usize = 0;
        while i2 < self.cells.interiors.len()
            invariant
                i2 <= int0.len(),
                self.cells.interiors@.len() == int0.len(),
                self.header == old(self).header,
                self.objects.entries@ == old(self).objects.entries@,
                self.dialogues.entries@ == old(self).dialogues.entries@,
                start + ext_locals(ext0) + int_locals(int0) <= 0xFFFF_FFFFusize,
                cells_mast_valid(old(self).cells, rm@.len() as int),
                old(self).cells.exteriors@ == ext0,
                old(self).cells.interiors@ == int0,
                next == start + ext_locals(ext0) + int_locals(int0.take(i2 as int)),
                self.cells.exteriors@.len() == ext0.len(),
                forall|j: int|
                    0 <= j < ext0.len() ==> {
                        let o = #[trigger] ext0[j];
                        let n = self.cells.exteriors@[j];
                        n.coords == o.coords && n.slot.landscape == o.slot.landscape
                            && n.slot.pathgrid == o.slot.pathgrid && match o.slot.cell {
                            Some(c) => n.slot.cell matches Some(c2) && cell_remapped(
                                c,
                                c2,
                                rm@,
                                start + ext_locals(ext0.take(j)),
                            ),
                            None => n.slot.cell is None,
                        }
                    },
                forall|j: int| i2 <= j < int0.len() ==> self.cells.interiors@[j] == int0[j],
                forall|j: int|
                    0 <= j < i2 ==> {
                        let o = #[trigger] int0[j];
                        let n = self.cells.interiors@[j];
                        n.name@ == o.name@ && n.slot.pathgrid == o.slot.pathgrid && match o.slot.cell {
                            Some(c) => n.slot.cell matches Some(c2) && cell_remapped(
                                c,
                                c2,
                                rm@,
                                start + ext_locals(ext0) + int_locals(int0.take(j)),
                            ),
                            None => n.slot.cell is None,
                        }
                    },
            decreases int0.len() - i2,
        {
            proof {
                lemma_int_locals_take_step(int0, i2 as int);
                lemma_int_locals_take_mono(int0, i2 as int + 1, int0.len() as int);
                lemma_int_locals_take_all(int0);
                match int0[i2 as int].slot.cell {
                    Some(c) => lemma_local_count_bounds(c.references@),
                    None => (),
                }
            }
            let ghost pre = self.cells.interiors@;
            let mut entry = self.cells.interiors.remove(i2);
            if let Some(cell) = &mut entry.slot.cell {
                apply_refs_remap(&mut cell.references, rm, &mut next);
            }
            self.cells.interiors.insert(i2, entry);
            proof {
                assert(self.cells.interiors@ =~= pre.update(
                    i2 as int,
                    self.cells.interiors@[i2 as int],
                ));
            }
            i2 = i2 + 1;
        }
        proof {
            lemma_int_locals_take_all(int0);
        }
    }
}

} // verus!

verus! {

/// `remap_props` only reads names and sizes, so it carries over to any
/// masters list that matches entry by entry.
pub proof fn lemma_remap_props_transfer(
    pm: Seq<crate::masters::MasterEntry>,
    mm: Seq<crate::masters::MasterEntry>,
    target: Seq<u8>,
    nm: Seq<crate::masters::MasterEntry>,
    nm2: Seq<crate::masters::MasterEntry>,
    rm: Seq<u32>,
)
    requires
        crate::masters::remap_props(pm, mm, target, nm, rm),
        crate::masters::masters_exact_eq(nm2, nm),
    ensures
        crate::masters::remap_props(pm, mm, target, nm2, rm),
{
    assert forall|j: int| mm.len() <= j < nm2.len() implies crate::masters::appended_from_plugin(
        pm,
        target,
        nm2,
        j,
    ) by {
        assert(crate::masters::appended_from_plugin(pm, target, nm, j));
        let i = choose|i: int|
            crate::masters::is_first_occurrence(pm, i, nm[j].name@) && nm[j].name@ == pm[i].name@
                && nm[j].size == pm[i].size && !crate::ids::id_eq(pm[i].name@, target);
        assert(crate::masters::is_first_occurrence(pm, i, nm2[j].name@));
    }
    assert forall|i: int|
        1 <= i <= pm.len() && #[trigger] rm[i] != 0 implies 1 <= rm[i] <= nm2.len()
        && crate::masters::is_first_occurrence(nm2, rm[i] - 1, pm[i - 1].name@) by {
        assert(crate::masters::is_first_occurrence(nm, rm[i] - 1, pm[i - 1].name@));
        assert(nm2[rm[i] - 1].name@ == nm[rm[i] - 1].name@);
        assert forall|q: int| 0 <= q < rm[i] - 1 implies !crate::ids::id_eq(
            #[trigger] nm2[q].name@,
            pm[i - 1].name@,
        ) by {
            assert(nm2[q].name@ == nm[q].name@);
        }
    }
}

impl PluginData {
    /// Remaps this plugin's references to be compatible with `master`, the
    /// file named `master_name` that the plugin is about to be merged into.
    ///
    /// The plugin's header is replaced by the master's (author and
    /// description of the merged output come from the master), extended with
    /// any plugin masters the master did not already list. When any index
    /// differs, every reference key is rewritten through the table and local
    /// references are renumbered starting past the master's own local
    /// indices.
    ///
    /// Returns, as ghost data, the remap table that now relates the old
    /// reference keys to the new ones and the first fresh local index.
    pub fn remap_masters(&mut self, master: &PluginData, master_name: &Vec<u8>) -> (g: Ghost<
        (Seq<u32>, int),
    >)
        requires
            old(self).header.masters@.len() + master.header.masters@.len() < 0xFFFF_FFFFusize,
            cells_mast_valid(old(self).cells, old(self).header.masters@.len() as int + 1),
            crate::plugin::cells_local_indices_fit(master.cells),
            cells_total_locals(old(self).cells) < 0xFFFF_FFFFusize,
            crate::plugin::cells_local_below(
                master.cells,
                0xFFFF_FFFF - cells_total_locals(old(self).cells),
            ),
        ensures
            crate::masters::remap_props(
                old(self).header.masters@,
                master.header.masters@,
                master_name@,
                final (self).header.masters@,
                g@.0,
            ),
            final (self).header.payload == master.header.payload,
            final (self).objects.entries@ == old(self).objects.entries@,
            final (self).dialogues.entries@ == old(self).dialogues.entries@,
            if g@.0 =~= crate::masters::identity_remap(old(self).header.masters@.len() as int + 1) {
                final (self).cells.exteriors@ == old(self).cells.exteriors@ && final (
                self).cells.interiors@ == old(self).cells.interiors@
            } else {
                g@.1 >= 1 && crate::plugin::cells_local_below(master.cells, g@.1)
                    && cells_remapped(old(self).cells, final (self).cells, g@.0, g@.1)
            },
    {
        let ghost pm = self.header.masters@;
        let ghost mm = master.header.masters@;
        let (new_masters, index_remap) = crate::masters::get_index_remap(
            &self.header.masters,
            &master.header.masters,
            master_name,
        );

        let mut header = master.header.duplicate();
        let ghost dup_masters = header.masters@;
        match new_masters {
            Some(masters) => {
                header.masters = masters;
            },
            None => {
                proof {
                    lemma_remap_props_transfer(
                        pm,
                        mm,
                        master_name@,
                        mm,
                        dup_masters,
                        match index_remap {
                            Some(ref rm) => rm@,
                            None => crate::masters::identity_remap(pm.len() as int + 1),
                        },
                    );
                }
            },
        }
        self.header = header;

        match index_remap {
            Some(indices) => {
                let start_index = master.next_reference_index();
                proof {
                    let b = 0xFFFF_FFFF - cells_total_locals(old(self).cells);
                    if start_index > 1 {
                        assert(crate::plugin::cells_has_local(master.cells, start_index - 1));
                        lemma_has_local_below(master.cells, start_index as int - 1, b);
                    }
                    assert(start_index <= b);
                }
                self.apply_index_remap(&indices, start_index);
                Ghost((indices@, start_index as int))
            },
            None => {
                Ghost((crate::masters::identity_remap(pm.len() as int + 1), 0))
            },
        }
    }
}

/// A local index that occurs in some cell lies below any bound that all
/// local indices respect.
pub proof fn lemma_has_local_below(cells: crate::cells::Cells, idx: int, bound: int)
    requires
        crate::plugin::cells_has_local(cells, idx),
        crate::plugin::cells_local_below(cells, bound),
    ensures
        idx < bound,
{
    if exists|i: int|
        0 <= i < cells.exteriors@.len() && crate::plugin::cell_has_local(
            (#[trigger] cells.exteriors@[i]).slot.cell,
            idx,
        ) {
        let i = choose|i: int|
            0 <= i < cells.exteriors@.len() && crate::plugin::cell_has_local(
                (#[trigger] cells.exteriors@[i]).slot.cell,
                idx,
            );
        match cells.exteriors@[i].slot.cell {
            Some(c) => {
                let k = choose|k: int|
                    0 <= k < c.references@.len() && (#[trigger] c.references@[k]).mast_index == 0
                        && c.references@[k].refr_index == idx;
                assert(c.references@[k].refr_index < bound);
            },
            None => (),
        }
    } else {
        let i = choose|i: int|
            0 <= i < cells.interiors@.len() && crate::plugin::cell_has_local(
                (#[trigger] cells.interiors@[i]).slot.cell,
                idx,
            );
        match cells.interiors@[i].slot.cell {
            Some(c) => {
                let k = choose|k: int|
                    0 <= k < c.references@.len() && (#[trigger] c.references@[k]).mast_index == 0
                        && c.references@[k].refr_index == idx;
                assert(c.references@[k].refr_index < bound);
            },
            None => (),
        }
    }
}

} // verus!

verus! {

/// Local reference renumbering: after the remap, the plugin's reference
/// keys are pairwise distinct, and no local key of the plugin collides with
/// a local key the master already uses (its locals all lie below `start`).
/// Two surviving references can share a key only when both are non-local
/// and carried that key before.
pub proof fn lemma_local_renumbering(
    m: Seq<RefEntry>,
    s: Seq<RefEntry>,
    rm: Seq<u32>,
    start: int,
)
    requires
        refs_wf(m),
        crate::plugin::refs_local_below(m, start),
        refs_wf(s),
        refs_mast_valid(s, rm.len() as int),
        start >= 0,
        start + local_count(s) <= 0xFFFF_FFFF,
        forall|q: int| 1 <= q < rm.len() ==> (#[trigger] rm[q]) != 0,
        forall|q1: int, q2: int|
            1 <= q1 < rm.len() && 1 <= q2 < rm.len() && #[trigger] rm[q1] == #[trigger] rm[q2]
                ==> q1 == q2,
    ensures
        refs_wf(remapped_refs(s, rm, start)),
        forall|i: int, j: int|
            0 <= i < m.len() && 0 <= j < remapped_refs(s, rm, start).len() && (
            #[trigger] m[i]).mast_index == 0 && (#[trigger] remapped_refs(s, rm, start)[j]).mast_index
                == 0 ==> m[i].refr_index != remapped_refs(s, rm, start)[j].refr_index,
{
    lemma_remap_preserves_uniqueness(s, rm, start);
    let t = remapped_refs(s, rm, start);
    assert forall|i: int, j: int|
        0 <= i < m.len() && 0 <= j < t.len() && (#[trigger] m[i]).mast_index == 0 && (
        #[trigger] t[j]).mast_index == 0 implies m[i].refr_index != t[j].refr_index by {
        assert(m[i].refr_index < start);
        assert(t[j].refr_index >= start);
    }
}

} // verus!
