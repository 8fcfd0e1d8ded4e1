//! Post-merge fix-ups on cell reference tables: applying moved references
//! and removing duplicate references.
//!
//! A moved reference sits in one exterior cell's table but declares, via its
//! `moved_cell` coordinates, that it belongs to another exterior cell; the
//! pass relocates it and clears the declaration. The duplicate pass drops,
//! among the surviving references of a cell that share an id, those whose
//! placement transforms coincide; which pairs coincide is decided outside
//! the core (the transform arithmetic is floating point) and handed in as a
//! symmetric match table.

use vstd::prelude::*;

use crate::cells::{Cells, CellData, ExteriorEntry, RefEntry, find_exterior_spec};
use crate::ids::{id_eq, eq_ignore_case};
use crate::lookup::lemma_first_match;

verus! {

/// No reference of the table is local and still marked as moved.
pub open spec fn refs_no_moved(s: Seq<RefEntry>) -> bool {
    forall|k: int|
        0 <= k < s.len() && (#[trigger] s[k]).mast_index == 0 ==> s[k].moved_cell is None
}

/// Every local moved reference of this cell names an exterior of `s` whose
/// cell slot is present and not ignored.
pub open spec fn cell_moved_targets_valid(s: Seq<ExteriorEntry>, c: CellData) -> bool {
    forall|k: int|
        0 <= k < c.references@.len() && (#[trigger] c.references@[k]).mast_index == 0
            && c.references@[k].moved_cell is Some ==> {
            let mc = c.references@[k].moved_cell->Some_0;
            let j = find_exterior_spec(s, mc);
            &&& j >= 0
            &&& s[j].slot.cell is Some
            &&& !s[j].slot.cell->Some_0.ignored
        }
}

/// Every local moved reference of every exterior cell names an exterior
/// whose cell slot is present and not ignored.
pub open spec fn moved_targets_valid(s: Seq<ExteriorEntry>) -> bool {
    forall|i: int|
        0 <= i < s.len() ==> match (#[trigger] s[i]).slot.cell {
            Some(c) => cell_moved_targets_valid(s, c),
            None => true,
        }
}

/// A reference that is local and declares another cell as its home.
pub open spec fn is_moved_local(r: RefEntry) -> bool {
    r.mast_index == 0 && r.moved_cell is Some
}

/// The reference with its moved declaration cleared.
pub open spec fn cleared(r: RefEntry) -> RefEntry {
    RefEntry {
        mast_index: r.mast_index,
        refr_index: r.refr_index,
        id: r.id,
        deleted: r.deleted,
        moved_cell: None,
        translation: r.translation,
        rotation: r.rotation,
        scale: r.scale,
        payload: r.payload,
    }
}

/// The references a cell keeps in place: everything but the moved locals.
pub open spec fn kept_unmoved(s: Seq<RefEntry>) -> Seq<RefEntry>
    decreases s.len(),
{
    if s.len() == 0 {
        Seq::empty()
    } else {
        let rest = kept_unmoved(s.drop_last());
        if !is_moved_local(s.last()) {
            rest.push(s.last())
        } else {
            rest
        }
    }
}

/// The moved locals of a table, in table order.
pub open spec fn moved_only(s: Seq<RefEntry>) -> Seq<RefEntry>
    decreases s.len(),
{
    if s.len() == 0 {
        Seq::empty()
    } else {
        let rest = moved_only(s.drop_last());
        if is_moved_local(s.last()) {
            rest.push(s.last())
        } else {
            rest
        }
    }
}

/// Every extracted element is a moved local drawn from the table.
pub proof fn lemma_moved_only_elems(s: Seq<RefEntry>)
    ensures
        forall|q: int|
            0 <= q < moved_only(s).len() ==> is_moved_local(#[trigger] moved_only(s)[q])
                && exists|k: int| 0 <= k < s.len() && #[trigger] s[k] == moved_only(s)[q],
    decreases s.len(),
{
    if s.len() > 0 {
        lemma_moved_only_elems(s.drop_last());
        let rest = moved_only(s.drop_last());
        let whole = moved_only(s);
        assert forall|q: int|
            0 <= q < whole.len() implies is_moved_local(#[trigger] whole[q]) && exists|k: int|
            0 <= k < s.len() && #[trigger] s[k] == whole[q] by {
            if q < rest.len() {
                assert(whole[q] == rest[q]);
                let k = choose|k: int|
                    0 <= k < s.drop_last().len() && #[trigger] s.drop_last()[k] == rest[q];
                assert(s[k] == whole[q]);
            } else {
                assert(whole[q] == s.last());
                assert(s[s.len() - 1] == whole[q]);
            }
        }
    }
}

/// A table stripped of its moved locals holds no moved local.
pub proof fn lemma_kept_unmoved_no_moved(s: Seq<RefEntry>)
    ensures
        refs_no_moved(kept_unmoved(s)),
    decreases s.len(),
{
    if s.len() > 0 {
        lemma_kept_unmoved_no_moved(s.drop_last());
        let rest = kept_unmoved(s.drop_last());
        let whole = kept_unmoved(s);
        assert forall|k: int|
            0 <= k < whole.len() && (#[trigger] whole[k]).mast_index == 0 implies whole[k].moved_cell
            is None by {
            if k < rest.len() {
                assert(whole[k] == rest[k]);
            }
        }
    }
}

/// The moved locals one exterior entry contributes.
pub open spec fn entry_moved(e: ExteriorEntry) -> Seq<RefEntry> {
    match e.slot.cell {
        Some(c) => moved_only(c.references@),
        None => Seq::empty(),
    }
}

/// Every moved local of the bucket, cell by cell in bucket order.
pub open spec fn moved_of(s: Seq<ExteriorEntry>) -> Seq<RefEntry>
    decreases s.len(),
{
    if s.len() == 0 {
        Seq::empty()
    } else {
        moved_of(s.drop_last()) + entry_moved(s.last())
    }
}

/// Of the moved references, those destined for the cell at `c`, in order,
/// with their declarations cleared.
pub open spec fn routed(s: Seq<RefEntry>, c: (i32, i32)) -> Seq<RefEntry>
    decreases s.len(),
{
    if s.len() == 0 {
        Seq::empty()
    } else {
        let rest = routed(s.drop_last(), c);
        if s.last().moved_cell == Some(c) {
            rest.push(cleared(s.last()))
        } else {
            rest
        }
    }
}

/// The two cells hold the same record apart from their reference tables.
pub open spec fn cell_fields_kept(o: CellData, n: CellData) -> bool {
    &&& n.name == o.name
    &&& n.deleted == o.deleted
    &&& n.ignored == o.ignored
    &&& n.is_interior == o.is_interior
    &&& n.grid == o.grid
    &&& n.region == o.region
    &&& n.map_color == o.map_color
    &&& n.water_height_bits == o.water_height_bits
    &&& n.atmosphere_payload == o.atmosphere_payload
    &&& n.data_payload == o.data_payload
}

impl Cells {
    /// Moves every local reference that declares another exterior cell as
    /// its home into that cell's table, clearing the declaration. Each cell
    /// ends up with its own non-moved references extended, key by key, by
    /// the moved references destined for it, taken in bucket order; nothing
    /// else changes and no local reference stays marked as moved.
    pub fn apply_moved_references(&mut self)
        requires
            moved_targets_valid(old(self).exteriors@),
            crate::cells::exteriors_wf(old(self).exteriors@),
        ensures
            final (self).interiors@ == old(self).interiors@,
            final (self).exteriors@.len() == old(self).exteriors@.len(),
            forall|i: int|
                0 <= i < final (self).exteriors@.len() ==> (#[trigger] final (
                self).exteriors@[i]).coords == old(self).exteriors@[i].coords && final (
                self).exteriors@[i].slot.landscape == old(self).exteriors@[i].slot.landscape
                    && final (self).exteriors@[i].slot.pathgrid == old(
                    self,
                ).exteriors@[i].slot.pathgrid,
            forall|i: int|
                0 <= i < final (self).exteriors@.len() ==> match old(self).exteriors@[i].slot.cell {
                    Some(c) => (#[trigger] final (self).exteriors@[i]).slot.cell matches Some(c2)
                        && cell_fields_kept(c, c2) && c2.references@ == crate::merge::ref_upsert_all(
                        kept_unmoved(c.references@),
                        routed(moved_of(old(self).exteriors@), old(self).exteriors@[i].coords),
                    ),
                    None => final (self).exteriors@[i].slot.cell is None,
                },
            forall|i: int|
                0 <= i < final (self).exteriors@.len() ==> match (#[trigger] final (
                self).exteriors@[i]).slot.cell {
                    Some(c) => refs_no_moved(c.references@),
                    None => true,
                },
    {
        let ghost e0 = self.exteriors@;

        // Extract the moved references from every exterior cell.
        let mut moved: Vec<RefEntry> = Vec::new();
        let n = self.exteriors.len();
        let mut i: usize = 0;
        while i < n
            invariant
                n == e0.len(),
                i <= n,
                self.exteriors@.len() == n,
                self.interiors@ == old(self).interiors@,
                forall|j: int|
                    0 <= j < n ==> (#[trigger] self.exteriors@[j]).coords == e0[j].coords && (
                    self.exteriors@[j]).slot.landscape == e0[j].slot.landscape && (
                    self.exteriors@[j]).slot.pathgrid == e0[j].slot.pathgrid && (
                    self.exteriors@[j].slot.cell is Some <==> e0[j].slot.cell is Some),
                forall|j: int| i <= j < n ==> #[trigger] self.exteriors@[j] == e0[j],
                moved_targets_valid(e0),
                moved@ == moved_of(e0.take(i as int)),
                forall|j: int|
                    0 <= j < i ==> match e0[j].slot.cell {
                        Some(c) => (#[trigger] self.exteriors@[j]).slot.cell matches Some(c2)
                            && cell_fields_kept(c, c2) && c2.references@ == kept_unmoved(
                            c.references@,
                        ),
                        None => self.exteriors@[j].slot.cell is None,
                    },
                forall|m: int|
                    0 <= m < moved@.len() ==> is_moved_local(#[trigger] moved@[m]) && {
                        let mc = moved@[m].moved_cell->Some_0;
                        let j = find_exterior_spec(e0, mc);
                        &&& j >= 0
                        &&& e0[j].slot.cell is Some
                        &&& !e0[j].slot.cell->Some_0.ignored
                    },
            decreases n - i,
        {
            proof {
                assert(e0.take(i as int + 1).drop_last() =~= e0.take(i as int));
                assert(e0.take(i as int + 1).last() == e0[i as int]);
            }
            let ghost pre = self.exteriors@;
            let ghost m_before = moved@;
            let mut entry = self.exteriors.remove(i);
            proof {
                assert(entry == e0[i as int]);
            }
            if let Some(cell) = &mut entry.slot.cell {
                let ghost r0 = cell.references@;
                let ghost csnap = *cell;
                let mut kept: Vec<RefEntry> = Vec::new();
                let total = cell.references.len();
                let mut k: usize = 0;
                while cell.references.len() > 0
                    invariant
                        r0.len() == total,
                        k <= r0.len(),
                        cell.references@ =~= r0.skip(k as int),
                        cell.name == csnap.name,
                        cell.deleted == csnap.deleted,
                        cell.ignored == csnap.ignored,
                        cell.is_interior == csnap.is_interior,
                        cell.grid == csnap.grid,
                        cell.region == csnap.region,
                        cell.map_color == csnap.map_color,
                        cell.water_height_bits == csnap.water_height_bits,
                        cell.atmosphere_payload == csnap.atmosphere_payload,
                        cell.data_payload == csnap.data_payload,
                        kept@ == kept_unmoved(r0.take(k as int)),
                        moved@ == m_before + moved_only(r0.take(k as int)),
                        moved_targets_valid(e0),
                        cell_moved_targets_valid(e0, csnap),
                        r0 == csnap.references@,
                        forall|m: int|
                            0 <= m < m_before.len() ==> is_moved_local(#[trigger] m_before[m]) && {
                                let mc = m_before[m].moved_cell->Some_0;
                                let j = find_exterior_spec(e0, mc);
                                &&& j >= 0
                                &&& e0[j].slot.cell is Some
                                &&& !e0[j].slot.cell->Some_0.ignored
                            },
                    decreases cell.references@.len(),
                {
                    let x = cell.references.remove(0);
                    proof {
                        assert(x == r0[k as int]);
                        assert(r0.skip(k as int).drop_first() =~= r0.skip(k as int + 1));
                        assert(r0.take(k as int + 1).drop_last() =~= r0.take(k as int));
                        assert(r0.take(k as int + 1).last() == r0[k as int]);
                    }
                    if x.mast_index == 0 && x.moved_cell.is_some() {
                        let ghost mpre = moved@;
                        moved.push(x);
                        proof {
                            assert(moved@ =~= m_before + moved_only(r0.take(k as int + 1)));
                        }
                    } else {
                        kept.push(x);
                    }
                    k = k + 1;
                }
                proof {
                    assert(r0.take(k as int) =~= r0);
                    assert(csnap == e0[i as int].slot.cell->Some_0);
                }
                cell.references = kept;
                proof {
                    assert(cell_fields_kept(e0[i as int].slot.cell->Some_0, *cell));
                    assert(cell.references@ == kept_unmoved(
                        e0[i as int].slot.cell->Some_0.references@,
                    ));
                    assert(moved@ == m_before + entry_moved(e0[i as int]));
                }
            }
            self.exteriors.insert(i, entry);
            proof {
                assert(self.exteriors@ =~= pre.update(i as int, self.exteriors@[i as int]));
                if e0[i as int].slot.cell is None {
                    assert(entry_moved(e0[i as int]) =~= Seq::<RefEntry>::empty());
                    assert(moved@ =~= m_before + entry_moved(e0[i as int]));
                }
                assert(moved@ == moved_of(e0.take(i as int + 1)));
                // New moved entries come from this cell, whose declared
                // destinations the precondition validates.
                assert forall|m: int|
                    0 <= m < moved@.len() implies is_moved_local(#[trigger] moved@[m]) && {
                    let mc = moved@[m].moved_cell->Some_0;
                    let j = find_exterior_spec(e0, mc);
                    &&& j >= 0
                    &&& e0[j].slot.cell is Some
                    &&& !e0[j].slot.cell->Some_0.ignored
                } by {
                    if m >= m_before.len() {
                        match e0[i as int].slot.cell {
                            Some(c) => {
                                lemma_moved_only_elems(c.references@);
                                assert(moved@[m] == moved_only(c.references@)[m
                                    - m_before.len()]);
                                let k = choose|k: int|
                                    0 <= k < c.references@.len() && #[trigger] c.references@[k]
                                        == moved@[m];
                                assert(cell_moved_targets_valid(e0, c));
                            },
                            None => {},
                        }
                    } else {
                        assert(moved@[m] == m_before[m]);
                    }
                }
            }
            i = i + 1;
        }
        proof {
            assert(e0.take(i as int) =~= e0);
        }

        // Put each moved reference into its destination cell's table.
        let total_m = moved.len();
        let ghost m0 = moved@;
        proof {
            assert(m0.take(0) =~= Seq::<RefEntry>::empty());
            assert forall|j: int| 0 <= j < e0.len() implies match e0[j].slot.cell {
                Some(c) => (#[trigger] self.exteriors@[j]).slot.cell matches Some(c2)
                    && cell_fields_kept(c, c2) && c2.references@ == crate::merge::ref_upsert_all(
                    kept_unmoved(c.references@),
                    routed(m0.take(0), e0[j].coords),
                ),
                None => self.exteriors@[j].slot.cell is None,
            } by {
                match e0[j].slot.cell {
                    Some(c) => {
                        assert(routed(m0.take(0), e0[j].coords) =~= Seq::<RefEntry>::empty());
                    },
                    None => {},
                }
            }
            assert forall|j: int| 0 <= j < e0.len() implies match (
            #[trigger] self.exteriors@[j]).slot.cell {
                Some(c) => refs_no_moved(c.references@),
                None => true,
            } by {
                match e0[j].slot.cell {
                    Some(c) => {
                        lemma_kept_unmoved_no_moved(c.references@);
                    },
                    None => {},
                }
            }
        }
        let mut p: usize = 0;
        while moved.len() > 0
            invariant
                m0.len() == total_m,
                p <= m0.len(),
                moved@ =~= m0.skip(p as int),
                m0 == moved_of(e0),
                crate::cells::exteriors_wf(e0),
                self.exteriors@.len() == e0.len(),
                self.interiors@ == old(self).interiors@,
                forall|j: int|
                    0 <= j < e0.len() ==> (#[trigger] self.exteriors@[j]).coords == e0[j].coords
                        && (self.exteriors@[j]).slot.landscape == e0[j].slot.landscape && (
                    self.exteriors@[j]).slot.pathgrid == e0[j].slot.pathgrid,
                forall|j: int|
                    0 <= j < e0.len() ==> match e0[j].slot.cell {
                        Some(c) => (#[trigger] self.exteriors@[j]).slot.cell matches Some(c2)
                            && cell_fields_kept(c, c2) && c2.references@
                            == crate::merge::ref_upsert_all(
                            kept_unmoved(c.references@),
                            routed(m0.take(p as int), e0[j].coords),
                        ),
                        None => self.exteriors@[j].slot.cell is None,
                    },
                forall|j: int|
                    0 <= j < e0.len() ==> match (#[trigger] self.exteriors@[j]).slot.cell {
                        Some(c) => refs_no_moved(c.references@),
                        None => true,
                    },
                forall|m: int|
                    p <= m < m0.len() ==> is_moved_local(#[trigger] m0[m]) && {
                        let mc = m0[m].moved_cell->Some_0;
                        let j = find_exterior_spec(e0, mc);
                        &&& j >= 0
                        &&& e0[j].slot.cell is Some
                    },
            decreases moved@.len(),
        {
            proof {
                assert(m0.take(p as int + 1).drop_last() =~= m0.take(p as int));
                assert(m0.take(p as int + 1).last() == m0[p as int]);
            }
            let mut r = moved.remove(0);
            let ghost r_orig = r;
            proof {
                assert(r == m0[p as int]);
                assert(m0.skip(p as int).drop_first() =~= m0.skip(p as int + 1));
            }
            let coords = match r.moved_cell {
                Some(c) => c,
                None => (0, 0),
            };
            r.moved_cell = None;
            proof {
                assert(r == cleared(m0[p as int]));
            }
            let dest = self.find_exterior(coords);
            proof {
                lemma_first_match(self.exteriors@, |x: ExteriorEntry| x.coords == coords);
                lemma_first_match(e0, |x: ExteriorEntry| x.coords == coords);
                let je = find_exterior_spec(e0, coords);
                assert(e0[je].coords == coords);
                assert(self.exteriors@[je].coords == coords);
                if find_exterior_spec(self.exteriors@, coords) == -1 {
                    assert(self.exteriors@[je].coords != coords);
                }
            }
            let j = match dest {
                Some(j) => j,
                None => 0,
            };
            proof {
                assert(dest is Some);
                // The keys are unique, so the hit is the declared cell.
                lemma_first_match(self.exteriors@, |x: ExteriorEntry| x.coords == coords);
                assert(self.exteriors@[j as int].coords == coords);
                assert(e0[j as int].coords == coords);
                let je = find_exterior_spec(e0, coords);
                if je != j {
                    assert(e0[je].coords == e0[j as int].coords);
                }
                assert(e0[j as int].slot.cell is Some);
            }
            let ghost pre = self.exteriors@;
            let mut entry = self.exteriors.remove(j);
            if let Some(cell) = &mut entry.slot.cell {
                upsert_reference(&mut cell.references, r);
            }
            self.exteriors.insert(j, entry);
            proof {
                assert(self.exteriors@ =~= pre.update(j as int, self.exteriors@[j as int]));
                crate::merge::lemma_ref_upsert_all_snoc(
                    kept_unmoved(e0[j as int].slot.cell->Some_0.references@),
                    routed(m0.take(p as int), e0[j as int].coords),
                    cleared(m0[p as int]),
                );
                assert(routed(m0.take(p as int + 1), e0[j as int].coords) == routed(
                    m0.take(p as int),
                    e0[j as int].coords,
                ).push(cleared(m0[p as int])));
                // The other cells carry different coordinates, so the routed
                // prefix does not grow for them.
                assert forall|j2: int|
                    0 <= j2 < e0.len() && j2 != j implies routed(
                    m0.take(p as int + 1),
                    (#[trigger] e0[j2]).coords,
                ) == routed(m0.take(p as int), e0[j2].coords) by {
                    assert(e0[j2].coords != coords);
                    assert(m0[p as int].moved_cell != Some(e0[j2].coords));
                }
            }
            p = p + 1;
        }
        proof {
            assert(m0.take(p as int) =~= m0);
        }
    }
}

/// Extends one reference table with one reference: it replaces the
/// reference carrying its key, or is appended. A table free of moved local
/// references stays free of them when the reference is not moved.
fn upsert_reference(refs: &mut Vec<RefEntry>, e: RefEntry)
    ensures
        final (refs)@ == crate::merge::ref_upsert(old(refs)@, e),
        refs_no_moved(old(refs)@) && (e.mast_index == 0 ==> e.moved_cell is None)
            ==> refs_no_moved(final (refs)@),
{
    let ghost pre = refs@;
    let m = e.mast_index;
    let r = e.refr_index;
    proof {
        crate::merge::lemma_ref_index(pre, m, r);
    }
    let n = refs.len();
    let mut j: usize = 0;
    let mut found = false;
    while j < n && !found
        invariant
            j <= n,
            n == refs@.len(),
            refs@ == pre,
            !found ==> forall|q: int|
                0 <= q < j ==> !((#[trigger] refs@[q]).mast_index == m && refs@[q].refr_index
                    == r),
            found ==> j < n && refs@[j as int].mast_index == m && refs@[j as int].refr_index == r
                && forall|q: int|
                0 <= q < j ==> !((#[trigger] refs@[q]).mast_index == m && refs@[q].refr_index
                    == r),
        decreases n - j, (if found { 0int } else { 1int }),
    {
        if refs[j].mast_index == m && refs[j].refr_index == r {
            found = true;
        } else {
            j = j + 1;
        }
    }
    proof {
        crate::merge::lemma_ref_index(pre, m, r);
        let f = crate::merge::ref_index(pre, m, r);
        if found {
            if f > j {
                assert(!(pre[j as int].mast_index == m && pre[j as int].refr_index == r));
            }
            if 0 <= f < j {
                assert(!(pre[f].mast_index == m && pre[f].refr_index == r));
            }
            if f == -1 {
                assert(!(pre[j as int].mast_index == m && pre[j as int].refr_index == r));
            }
            assert(f == j);
        } else {
            if f >= 0 {
                assert(pre[f].mast_index == m && pre[f].refr_index == r);
            }
        }
    }
    if found {
        refs.set(j, e);
    } else {
        refs.push(e);
    }
}

/// Position `j` of the old table has a survivor.
pub open spec fn survives_at(g: Seq<int>, j: int) -> bool {
    exists|k: int| 0 <= k < g.len() && #[trigger] g[k] == j
}

/// Position `j` of the old table coincides, per the match table, with some
/// surviving non-deleted reference of the same id.
pub open spec fn dropped_as_duplicate(
    refs: Seq<RefEntry>,
    matches: Seq<Vec<bool>>,
    g: Seq<int>,
    j: int,
) -> bool {
    exists|k: int|
        0 <= k < g.len() && 0 <= #[trigger] g[k] < refs.len() && !refs[g[k]].deleted && id_eq(
            refs[g[k]].id@,
            refs[j].id@,
        ) && matches[g[k]]@[j]
}

impl CellData {
    /// Removes duplicate references: among the non-deleted references of
    /// this cell that share an id (compared case-insensitively), those whose
    /// transforms coincide according to the symmetric table `matches` are
    /// dropped until no two surviving same-id references coincide; nothing
    /// else is dropped. Returns, as ghost data, the original position of
    /// each survivor.
    pub fn remove_duplicate_references(&mut self, matches: &Vec<Vec<bool>>) -> (g: Ghost<Seq<int>>)
        requires
            matches@.len() == old(self).references@.len(),
            forall|i: int|
                0 <= i < matches@.len() ==> (#[trigger] matches@[i])@.len() == matches@.len(),
            forall|i: int, j: int|
                0 <= i < matches@.len() && 0 <= j < matches@.len() ==> (#[trigger] matches@[i]@[j])
                    == matches@[j]@[i],
        ensures
            final (self).name@ == old(self).name@,
            final (self).deleted == old(self).deleted,
            final (self).ignored == old(self).ignored,
            final (self).is_interior == old(self).is_interior,
            final (self).grid == old(self).grid,
            final (self).region == old(self).region,
            final (self).map_color == old(self).map_color,
            final (self).water_height_bits == old(self).water_height_bits,
            final (self).atmosphere_payload == old(self).atmosphere_payload,
            final (self).data_payload == old(self).data_payload,
            g@.len() == final (self).references@.len(),
            forall|k: int| 0 <= k < g@.len() ==> 0 <= #[trigger] g@[k] < old(self).references@.len(),
            forall|k1: int, k2: int| 0 <= k1 < k2 < g@.len() ==> #[trigger] g@[k1] < #[trigger] g@[k2],
            forall|k: int|
                0 <= k < g@.len() ==> #[trigger] final (self).references@[k] == old(
                    self,
                ).references@[g@[k]],
            forall|j: int|
                0 <= j < old(self).references@.len() && (#[trigger] old(
                    self,
                ).references@[j]).deleted ==> survives_at(g@, j),
            forall|j: int|
                0 <= j < old(self).references@.len() && !survives_at(g@, j) ==> !(#[trigger] old(
                    self,
                ).references@[j]).deleted && dropped_as_duplicate(
                    old(self).references@,
                    matches@,
                    g@,
                    j,
                ),
            forall|k1: int, k2: int|
                0 <= k1 < k2 < g@.len() && !(#[trigger] final (self).references@[k1]).deleted && !(
                #[trigger] final (self).references@[k2]).deleted && id_eq(
                    final (self).references@[k1].id@,
                    final (self).references@[k2].id@,
                ) ==> !matches@[g@[k1]]@[g@[k2]],
    {
        let ghost r0 = self.references@;
        let n = self.references.len();

        // Working from the back, keep a reference unless a kept, non-deleted
        // later reference with the same id has a coinciding transform.
        let mut keep: Vec<bool> = Vec::new();
        let mut filled: usize = 0;
        while filled < n
            invariant
                r0.len() == n,
                *self == *old(self),
                self.references@ == r0,
                filled <= n,
                keep@.len() == filled,
                matches@.len() == n,
                forall|i: int| 0 <= i < n ==> (#[trigger] matches@[i])@.len() == n,
                forall|k: int|
                    0 <= k < filled ==> ((#[trigger] keep@[k]) <==> (r0[n - 1 - k].deleted || !(
                    exists|j: int|
                        n - 1 - k < j < n && #[trigger] keep@[n - 1 - j] && !r0[j].deleted
                            && !r0[n - 1 - k].deleted && id_eq(r0[j].id@, r0[n - 1 - k].id@)
                            && matches@[j]@[n - 1 - k]))),
            decreases n - filled,
        {
            let k = n - 1 - filled;
            let this_deleted = self.references[k].deleted;
            let ghost ksnap = keep@;
            let mut dup = false;
            let mut j: usize = k + 1;
            while j < n
                invariant
                    r0.len() == n,
                    *self == *old(self),
                    self.references@ == r0,
                    keep@ == ksnap,
                    k == n - 1 - filled,
                    filled < n,
                    k + 1 <= j <= n,
                    keep@.len() == filled,
                    matches@.len() == n,
                    forall|i: int| 0 <= i < n ==> (#[trigger] matches@[i])@.len() == n,
                    this_deleted == r0[k as int].deleted,
                    dup <==> exists|q: int|
                        k < q < j && #[trigger] keep@[n - 1 - q] && !r0[q].deleted
                            && !r0[k as int].deleted && id_eq(r0[q].id@, r0[k as int].id@)
                            && matches@[q]@[k as int],
                decreases n - j,
            {
                if !dup {
                    if keep[n - 1 - j] && !self.references[j].deleted && !this_deleted {
                        if eq_ignore_case(&self.references[j].id, &self.references[k].id) {
                            if matches[j][k] {
                                dup = true;
                                proof {
                                    assert(keep@[n - 1 - j as int] && !r0[j as int].deleted && !r0[
                                        k as int].deleted && id_eq(r0[j as int].id@, r0[k as int].id@)
                                        && matches@[j as int]@[k as int]);
                                }
                            }
                        }
                    }
                }
                j = j + 1;
            }
            keep.push(this_deleted || !dup);
            proof {
                let kp = n - 1 - filled;
                // The just-computed flag matches the characterization: the
                // inner scan consulted the same prefix of flags.
                if dup {
                    let j = choose|j: int|
                        kp < j < n && #[trigger] ksnap[n - 1 - j] && !r0[j].deleted
                            && !r0[kp].deleted && id_eq(r0[j].id@, r0[kp].id@)
                            && matches@[j]@[kp];
                    assert(keep@[n - 1 - j] == ksnap[n - 1 - j]);
                    assert(exists|j2: int|
                        kp < j2 < n && #[trigger] keep@[n - 1 - j2] && !r0[j2].deleted
                            && !r0[kp].deleted && id_eq(r0[j2].id@, r0[kp].id@)
                            && matches@[j2]@[kp]);
                } else {
                    assert forall|j2: int|
                        kp < j2 < n && #[trigger] keep@[n - 1 - j2] && !r0[j2].deleted
                            && !r0[kp].deleted && id_eq(r0[j2].id@, r0[kp].id@)
                            && matches@[j2]@[kp] implies false by {
                        assert(ksnap[n - 1 - j2] == keep@[n - 1 - j2]);
                    }
                }
                assert forall|k2: int|
                    0 <= k2 < filled + 1 implies ((#[trigger] keep@[k2]) <==> (r0[n - 1
                    - k2].deleted || !(exists|j2: int|
                    n - 1 - k2 < j2 < n && #[trigger] keep@[n - 1 - j2] && !r0[j2].deleted && !r0[n
                        - 1 - k2].deleted && id_eq(r0[j2].id@, r0[n - 1 - k2].id@)
                        && matches@[j2]@[n - 1 - k2]))) by {
                    if k2 < filled {
                        assert(keep@[k2] == ksnap[k2]);
                        if ksnap[k2] <==> (r0[n - 1 - k2].deleted || !(exists|j2: int|
                            n - 1 - k2 < j2 < n && #[trigger] ksnap[n - 1 - j2]
                                && !r0[j2].deleted && !r0[n - 1 - k2].deleted && id_eq(
                                r0[j2].id@,
                                r0[n - 1 - k2].id@,
                            ) && matches@[j2]@[n - 1 - k2])) {
                            if exists|j2: int|
                                n - 1 - k2 < j2 < n && #[trigger] ksnap[n - 1 - j2]
                                    && !r0[j2].deleted && !r0[n - 1 - k2].deleted && id_eq(
                                    r0[j2].id@,
                                    r0[n - 1 - k2].id@,
                                ) && matches@[j2]@[n - 1 - k2] {
                                let j2 = choose|j2: int|
                                    n - 1 - k2 < j2 < n && #[trigger] ksnap[n - 1 - j2]
                                        && !r0[j2].deleted && !r0[n - 1 - k2].deleted && id_eq(
                                        r0[j2].id@,
                                        r0[n - 1 - k2].id@,
                                    ) && matches@[j2]@[n - 1 - k2];
                                assert(keep@[n - 1 - j2] == ksnap[n - 1 - j2]);
                            }
                            if exists|j2: int|
                                n - 1 - k2 < j2 < n && #[trigger] keep@[n - 1 - j2]
                                    && !r0[j2].deleted && !r0[n - 1 - k2].deleted && id_eq(
                                    r0[j2].id@,
                                    r0[n - 1 - k2].id@,
                                ) && matches@[j2]@[n - 1 - k2] {
                                let j2 = choose|j2: int|
                                    n - 1 - k2 < j2 < n && #[trigger] keep@[n - 1 - j2]
                                        && !r0[j2].deleted && !r0[n - 1 - k2].deleted && id_eq(
                                        r0[j2].id@,
                                        r0[n - 1 - k2].id@,
                                    ) && matches@[j2]@[n - 1 - k2];
                                assert(n - 1 - j2 < filled);
                                assert(ksnap[n - 1 - j2] == keep@[n - 1 - j2]);
                            }
                        }
                    }
                }
            }
            filled = filled + 1;
        }

        // Collect the kept references in order, with their old positions.
        let mut out: Vec<RefEntry> = Vec::new();
        let ghost mut w: Seq<int> = Seq::empty();
        let mut q: usize = 0;
        while self.references.len() > 0
            invariant
                r0.len() == n,
                q <= n,
                self.name@ == old(self).name@,
                self.deleted == old(self).deleted,
                self.ignored == old(self).ignored,
                self.is_interior == old(self).is_interior,
                self.grid == old(self).grid,
                self.region == old(self).region,
                self.map_color == old(self).map_color,
                self.water_height_bits == old(self).water_height_bits,
                self.atmosphere_payload == old(self).atmosphere_payload,
                self.data_payload == old(self).data_payload,
                r0 == old(self).references@,
                self.references@ =~= r0.skip(q as int),
                keep@.len() == n,
                matches@.len() == n,
                forall|i: int| 0 <= i < n ==> (#[trigger] matches@[i])@.len() == n,
                forall|k: int|
                    0 <= k < n ==> ((#[trigger] keep@[n - 1 - k]) <==> (r0[k].deleted || !(exists|
                        j: int,
                    |
                        k < j < n && #[trigger] keep@[n - 1 - j] && !r0[j].deleted && !r0[k].deleted
                            && id_eq(r0[j].id@, r0[k].id@) && matches@[j]@[k]))),
                w.len() == out@.len(),
                forall|k: int| 0 <= k < w.len() ==> 0 <= #[trigger] w[k] < q,
                forall|k1: int, k2: int| 0 <= k1 < k2 < w.len() ==> #[trigger] w[k1] < #[trigger] w[k2],
                forall|k: int| 0 <= k < w.len() ==> #[trigger] out@[k] == r0[w[k]],
                forall|k: int| 0 <= k < w.len() ==> keep@[n - 1 - #[trigger] w[k]],
                forall|j: int|
                    0 <= j < q && (#[trigger] r0[j]).deleted ==> exists|k: int|
                        0 <= k < w.len() && #[trigger] w[k] == j,
                forall|j: int| 0 <= j < q && keep@[n - 1 - j] ==> survives_at(w, j),
            decreases self.references@.len(),
        {
            let x = self.references.remove(0);
            proof {
                assert(x == r0[q as int]);
                assert(r0.skip(q as int).drop_first() =~= r0.skip(q as int + 1));
            }
            if keep[n - 1 - q] {
                out.push(x);
                proof {
                    let w_old = w;
                    w = w.push(q as int);
                    assert(keep@[n - 1 - q as int]);
                    if r0[q as int].deleted {
                        assert(w[w.len() - 1] == q as int);
                    }
                    assert forall|j2: int|
                        0 <= j2 < q && (#[trigger] r0[j2]).deleted implies exists|k2: int|
                        0 <= k2 < w.len() && #[trigger] w[k2] == j2 by {
                        let k2 = choose|k2: int| 0 <= k2 < w_old.len() && #[trigger] w_old[k2] == j2;
                        assert(w[k2] == j2);
                    }
                    assert forall|j2: int|
                        0 <= j2 < q + 1 && keep@[n - 1 - j2] implies survives_at(w, j2) by {
                        if j2 < q {
                            assert(survives_at(w_old, j2));
                            let k2 = choose|k2: int|
                                0 <= k2 < w_old.len() && #[trigger] w_old[k2] == j2;
                            assert(w[k2] == j2);
                        } else {
                            assert(w[w.len() - 1] == j2);
                        }
                    }
                }
            } else {
                proof {
                    assert(!keep@[n - 1 - q as int]);
                    assert(!r0[q as int].deleted);
                }
            }
            q = q + 1;
        }
        self.references = out;

        proof {
            assert forall|k1: int, k2: int|
                0 <= k1 < k2 < w.len() && !(#[trigger] self.references@[k1]).deleted && !(
                #[trigger] self.references@[k2]).deleted && id_eq(
                    self.references@[k1].id@,
                    self.references@[k2].id@,
                ) implies !matches@[w[k1]]@[w[k2]] by {
                let a = w[k1];
                let b = w[k2];
                assert(keep@[n - 1 - a]);
                assert(keep@[n - 1 - b]);
                if matches@[a]@[b] {
                    assert(matches@[b]@[a] == matches@[a]@[b]);
                    assert(a < b < n && keep@[n - 1 - b] && !r0[b].deleted && !r0[a].deleted
                        && id_eq(r0[b].id@, r0[a].id@) && matches@[b]@[a]);
                    assert(!keep@[n - 1 - a]);
                }
            }
            // A dropped position failed its keep test: it was not deleted
            // and coincided with a kept later same-id reference, which the
            // witness list records.
            assert forall|j: int|
                0 <= j < n && !survives_at(w, j) implies !(#[trigger] r0[j]).deleted
                && dropped_as_duplicate(r0, matches@, w, j) by {
                if keep@[n - 1 - j] {
                    assert(survives_at(w, j));
                }
                assert(!keep@[n - 1 - j]);
                assert(!r0[j].deleted);
                let j2 = choose|j2: int|
                    j < j2 < n && #[trigger] keep@[n - 1 - j2] && !r0[j2].deleted && !r0[j].deleted
                        && id_eq(r0[j2].id@, r0[j].id@) && matches@[j2]@[j];
                assert(survives_at(w, j2));
                let k = choose|k: int| 0 <= k < w.len() && #[trigger] w[k] == j2;
                assert(0 <= w[k] < r0.len() && !r0[w[k]].deleted && id_eq(r0[w[k]].id@, r0[j].id@)
                    && matches@[w[k]]@[j]);
            }
        }
        Ghost(w)
    }
}

} // verus!
