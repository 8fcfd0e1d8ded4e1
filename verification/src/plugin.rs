//! The bucketed representation of a decoded plugin.

use vstd::prelude::*;

use crate::cells::{Cells, CellData, RefEntry};
use crate::dialogue::Dialogues;
use crate::masters::Header;
use crate::objects::Objects;

verus! {

/// A decoded plugin, partitioned into the buckets the merge works on.
pub struct PluginData {
    pub header: Header,
    pub objects: Objects,
    pub cells: Cells,
    pub dialogues: Dialogues,
}

/// Every local reference's index lies below `bound`.
pub open spec fn refs_local_below(s: Seq<RefEntry>, bound: int) -> bool {
    forall|k: int|
        0 <= k < s.len() && (#[trigger] s[k]).mast_index == 0 ==> s[k].refr_index < bound
}

/// Every local reference's index lies below `bound`, in every cell slot.
pub open spec fn cells_local_below(cells: Cells, bound: int) -> bool {
    &&& forall|i: int|
        0 <= i < cells.exteriors@.len() ==> match (#[trigger] cells.exteriors@[i]).slot.cell {
            Some(c) => refs_local_below(c.references@, bound),
            None => true,
        }
    &&& forall|i: int|
        0 <= i < cells.interiors@.len() ==> match (#[trigger] cells.interiors@[i]).slot.cell {
            Some(c) => refs_local_below(c.references@, bound),
            None => true,
        }
}

/// Some reference of the slot is local with exactly this index.
pub open spec fn cell_has_local(opt: Option<CellData>, idx: int) -> bool {
    match opt {
        Some(c) => exists|k: int|
            0 <= k < c.references@.len() && (#[trigger] c.references@[k]).mast_index == 0
                && c.references@[k].refr_index == idx,
        None => false,
    }
}

/// Some cell of the plugin holds a local reference with exactly this index.
pub open spec fn cells_has_local(cells: Cells, idx: int) -> bool {
    ||| exists|i: int|
        0 <= i < cells.exteriors@.len() && cell_has_local(
            (#[trigger] cells.exteriors@[i]).slot.cell,
            idx,
        )
    ||| exists|i: int|
        0 <= i < cells.interiors@.len() && cell_has_local(
            (#[trigger] cells.interiors@[i]).slot.cell,
            idx,
        )
}

/// Every local reference's index lies below `u32::MAX`, in every cell slot
/// (so one more index is always available).
pub open spec fn cells_local_indices_fit(cells: Cells) -> bool {
    cells_local_below(cells, 0xFFFF_FFFF)
}

impl PluginData {
    /// An empty plugin.
    pub fn new() -> (r: Self)
        ensures
            r.header.masters@.len() == 0,
            r.objects.entries@.len() == 0,
            r.cells.interiors@.len() == 0,
            r.cells.exteriors@.len() == 0,
            r.dialogues.entries@.len() == 0,
    {
        PluginData {
            header: Header { masters: Vec::new(), payload: 0 },
            objects: Objects::new(),
            cells: Cells::new(),
            dialogues: Dialogues::new(),
        }
    }

    /// The next free local reference index: one past the highest local
    /// reference index in any cell, or 1 when there is none.
    pub fn next_reference_index(&self) -> (r: u32)
        requires
            cells_local_indices_fit(self.cells),
        ensures
            r >= 1,
            cells_local_below(self.cells, r as int),
            r > 1 ==> cells_has_local(self.cells, r - 1),
    {
        let mut best: u32 = 0;
        let mut i: usize = 0;
        while i < self.cells.exteriors.len()
            invariant
                i <= self.cells.exteriors@.len(),
                cells_local_indices_fit(self.cells),
                best < 0xFFFF_FFFFu32,
                best > 0 ==> cells_has_local(self.cells, best as int),
                forall|j: int|
                    0 <= j < i ==> match (#[trigger] self.cells.exteriors@[j]).slot.cell {
                        Some(c) => refs_local_below(c.references@, best as int + 1),
                        None => true,
                    },
            decreases self.cells.exteriors@.len() - i,
        {
            if let Some(cell) = &self.cells.exteriors[i].slot.cell {
                let prev = best;
                best = max_local_index(&cell.references, best);
                proof {
                    if best > prev {
                        assert(cell_has_local(self.cells.exteriors@[i as int].slot.cell, best as int));
                    }
                }
            }
            i = i + 1;
        }
        let ghost best_ext = best;
        let mut i2: usize = 0;
        while i2 < self.cells.interiors.len()
            invariant
                i2 <= self.cells.interiors@.len(),
                cells_local_indices_fit(self.cells),
                best < 0xFFFF_FFFFu32,
                best >= best_ext,
                best > 0 ==> cells_has_local(self.cells, best as int),
                forall|j: int|
                    0 <= j < self.cells.exteriors@.len() ==> match (#[trigger] self.cells.exteriors@[j]).slot.cell {
                        Some(c) => refs_local_below(c.references@, best_ext as int + 1),
                        None => true,
                    },
                forall|j: int|
                    0 <= j < i2 ==> match (#[trigger] self.cells.interiors@[j]).slot.cell {
                        Some(c) => refs_local_below(c.references@, best as int + 1),
                        None => true,
                    },
            decreases self.cells.interiors@.len() - i2,
        {
            if let Some(cell) = &self.cells.interiors[i2].slot.cell {
                let prev = best;
                best = max_local_index(&cell.references, best);
                proof {
                    if best > prev {
                        assert(cell_has_local(self.cells.interiors@[i2 as int].slot.cell, best as int));
                    }
                }
            }
            i2 = i2 + 1;
        }
        best + 1
    }
}

/// The larger of `best` and the highest local reference index in `refs`.
fn max_local_index(refs: &Vec<RefEntry>, best: u32) -> (r: u32)
    requires
        refs_local_below(refs@, 0xFFFF_FFFF),
        best < 0xFFFF_FFFFu32,
    ensures
        r >= best,
        r < 0xFFFF_FFFFu32,
        refs_local_below(refs@, r as int + 1),
        r > best ==> exists|k: int|
            0 <= k < refs@.len() && (#[trigger] refs@[k]).mast_index == 0 && refs@[k].refr_index
                == r,
{
    let mut r = best;
    let mut k: usize = 0;
    while k < refs.len()
        invariant
            k <= refs@.len(),
            refs_local_below(refs@, 0xFFFF_FFFF),
            r >= best,
            r < 0xFFFF_FFFFu32,
            forall|q: int|
                0 <= q < k && (#[trigger] refs@[q]).mast_index == 0 ==> refs@[q].refr_index
                    <= r as int,
            r > best ==> exists|q: int|
                0 <= q < refs@.len() && (#[trigger] refs@[q]).mast_index == 0
                    && refs@[q].refr_index == r,
        decreases refs@.len() - k,
    {
        let re = &refs[k];
        if re.mast_index == 0 && re.refr_index > r {
            r = re.refr_index;
            proof {
                assert(refs@[k as int].mast_index == 0 && refs@[k as int].refr_index == r);
            }
        }
        k = k + 1;
    }
    r
}

} // verus!

verus! {

/// The infos kept when ignored records are dropped.
pub open spec fn kept_unignored_infos(s: Seq<crate::dialogue::InfoRecord>) -> Seq<
    crate::dialogue::InfoRecord,
>
    decreases s.len(),
{
    if s.len() == 0 {
        Seq::empty()
    } else {
        let rest = kept_unignored_infos(s.drop_last());
        if !s.last().ignored {
            rest.push(s.last())
        } else {
            rest
        }
    }
}

/// The object records kept when ignored records are dropped.
pub open spec fn kept_unignored_objects(s: Seq<crate::records::ObjectRecord>) -> Seq<
    crate::records::ObjectRecord,
>
    decreases s.len(),
{
    if s.len() == 0 {
        Seq::empty()
    } else {
        let rest = kept_unignored_objects(s.drop_last());
        if !s.last().ignored {
            rest.push(s.last())
        } else {
            rest
        }
    }
}

/// The entry with its ignored slots emptied.
pub open spec fn prune_ext_ignored(e: crate::cells::ExteriorEntry) -> crate::cells::ExteriorEntry {
    crate::cells::ExteriorEntry {
        coords: e.coords,
        slot: crate::cells::Exterior {
            cell: match e.slot.cell {
                Some(c) => if c.ignored {
                    None
                } else {
                    Some(c)
                },
                None => None,
            },
            landscape: match e.slot.landscape {
                Some(l) => if l.ignored {
                    None
                } else {
                    Some(l)
                },
                None => None,
            },
            pathgrid: match e.slot.pathgrid {
                Some(p) => if p.ignored {
                    None
                } else {
                    Some(p)
                },
                None => None,
            },
        },
    }
}

/// The entry with its ignored slots emptied.
pub open spec fn prune_int_ignored(e: crate::cells::InteriorEntry) -> crate::cells::InteriorEntry {
    crate::cells::InteriorEntry {
        name: e.name,
        slot: crate::cells::Interior {
            cell: match e.slot.cell {
                Some(c) => if c.ignored {
                    None
                } else {
                    Some(c)
                },
                None => None,
            },
            pathgrid: match e.slot.pathgrid {
                Some(p) => if p.ignored {
                    None
                } else {
                    Some(p)
                },
                None => None,
            },
        },
    }
}

/// Some slot of the entry is filled.
pub open spec fn ext_has_content(e: crate::cells::ExteriorEntry) -> bool {
    e.slot.cell is Some || e.slot.landscape is Some || e.slot.pathgrid is Some
}

/// Some slot of the entry is filled.
pub open spec fn int_has_content(e: crate::cells::InteriorEntry) -> bool {
    e.slot.cell is Some || e.slot.pathgrid is Some
}

/// The exterior entries left once ignored slots are emptied and emptied
/// entries are dropped, in order.
pub open spec fn kept_exteriors_unignored(s: Seq<crate::cells::ExteriorEntry>) -> Seq<
    crate::cells::ExteriorEntry,
>
    decreases s.len(),
{
    if s.len() == 0 {
        Seq::empty()
    } else {
        let rest = kept_exteriors_unignored(s.drop_last());
        let pruned = prune_ext_ignored(s.last());
        if ext_has_content(pruned) {
            rest.push(pruned)
        } else {
            rest
        }
    }
}

/// The interior entries left once ignored slots are emptied and emptied
/// entries are dropped, in order.
pub open spec fn kept_interiors_unignored(s: Seq<crate::cells::InteriorEntry>) -> Seq<
    crate::cells::InteriorEntry,
>
    decreases s.len(),
{
    if s.len() == 0 {
        Seq::empty()
    } else {
        let rest = kept_interiors_unignored(s.drop_last());
        let pruned = prune_int_ignored(s.last());
        if int_has_content(pruned) {
            rest.push(pruned)
        } else {
            rest
        }
    }
}

/// The dialogue entries whose topic record is not ignored, in order.
pub open spec fn kept_entries_unignored(s: Seq<crate::dialogue::DialogueEntry>) -> Seq<
    crate::dialogue::DialogueEntry,
>
    decreases s.len(),
{
    if s.len() == 0 {
        Seq::empty()
    } else {
        let rest = kept_entries_unignored(s.drop_last());
        if !s.last().group.dialogue.ignored {
            rest.push(s.last())
        } else {
            rest
        }
    }
}

/// The group with its ignored infos dropped; only a group whose topic
/// record is not ignored survives at all.
pub open spec fn grp_unignored(
    o: crate::dialogue::DialogueEntry,
    n: crate::dialogue::DialogueEntry,
) -> bool {
    &&& n.key@ == o.key@
    &&& !o.group.dialogue.ignored
    &&& n.group.dialogue == o.group.dialogue
    &&& n.group.infos@ == kept_unignored_infos(o.group.infos@)
}

impl PluginData {
    /// Removes every record whose ignored flag is set: ignored object
    /// records and infos are dropped, ignored cell slots are emptied, a cell
    /// entry with nothing left is dropped, and an ignored topic goes with
    /// all its infos. Everything else stays, in order.
    pub fn remove_ignored(&mut self)
        ensures
            final (self).header == old(self).header,
            final (self).objects.entries@ == kept_unignored_objects(old(self).objects.entries@),
            final (self).cells.exteriors@ == kept_exteriors_unignored(
                old(self).cells.exteriors@,
            ),
            final (self).cells.interiors@ == kept_interiors_unignored(
                old(self).cells.interiors@,
            ),
            final (self).dialogues.entries@.len() == kept_entries_unignored(
                old(self).dialogues.entries@,
            ).len(),
            forall|k: int|
                0 <= k < final (self).dialogues.entries@.len() ==> grp_unignored(
                    kept_entries_unignored(old(self).dialogues.entries@)[k],
                    #[trigger] final (self).dialogues.entries@[k],
                ),
    {
        // Objects.
        let ghost o_obj = self.objects.entries@;
        let mut kept_o: Vec<crate::records::ObjectRecord> = Vec::new();
        let total_o = self.objects.entries.len();
        let mut i: usize = 0;
        while self.objects.entries.len() > 0
            invariant
                o_obj.len() == total_o,
                i <= o_obj.len(),
                self.objects.entries@ =~= o_obj.skip(i as int),
                kept_o@ == kept_unignored_objects(o_obj.take(i as int)),
                self.header == old(self).header,
                self.cells.exteriors@ == old(self).cells.exteriors@,
                self.cells.interiors@ == old(self).cells.interiors@,
                self.dialogues.entries@ == old(self).dialogues.entries@,
            decreases self.objects.entries@.len(),
        {
            let e = self.objects.entries.remove(0);
            proof {
                assert(e == o_obj[i as int]);
                assert(o_obj.take(i as int + 1).drop_last() =~= o_obj.take(i as int));
                assert(o_obj.take(i as int + 1).last() == o_obj[i as int]);
                assert(o_obj.skip(i as int).drop_first() =~= o_obj.skip(i as int + 1));
            }
            if !e.ignored {
                kept_o.push(e);
            }
            i = i + 1;
        }
        proof {
            assert(o_obj.take(i as int) =~= o_obj);
        }
        self.objects.entries = kept_o;
        let ghost obj_done = self.objects.entries@;

        // Exteriors.
        let ghost e0 = self.cells.exteriors@;
        let mut out_e: Vec<crate::cells::ExteriorEntry> = Vec::new();
        let mut x: usize = 0;
        let total_e = self.cells.exteriors.len();
        while self.cells.exteriors.len() > 0
            invariant
                e0.len() == total_e,
                x <= e0.len(),
                self.cells.exteriors@ =~= e0.skip(x as int),
                self.header == old(self).header,
                self.objects.entries@ == obj_done,
                self.cells.interiors@ == old(self).cells.interiors@,
                self.dialogues.entries@ == old(self).dialogues.entries@,
                e0 == old(self).cells.exteriors@,
                out_e@ == kept_exteriors_unignored(e0.take(x as int)),
            decreases self.cells.exteriors@.len(),
        {
            let mut entry = self.cells.exteriors.remove(0);
            proof {
                assert(entry == e0[x as int]);
                assert(e0.skip(x as int).drop_first() =~= e0.skip(x as int + 1));
                assert(e0.take(x as int + 1).drop_last() =~= e0.take(x as int));
                assert(e0.take(x as int + 1).last() == e0[x as int]);
            }
            let drop_cell = match &entry.slot.cell {
                Some(c) => c.ignored,
                None => false,
            };
            if drop_cell {
                entry.slot.cell = None;
            }
            let drop_land = match &entry.slot.landscape {
                Some(l) => l.ignored,
                None => false,
            };
            if drop_land {
                entry.slot.landscape = None;
            }
            let drop_path = match &entry.slot.pathgrid {
                Some(p) => p.ignored,
                None => false,
            };
            if drop_path {
                entry.slot.pathgrid = None;
            }
            proof {
                assert(entry == prune_ext_ignored(e0[x as int]));
            }
            let keep = entry.slot.cell.is_some() || entry.slot.landscape.is_some()
                || entry.slot.pathgrid.is_some();
            if keep {
                out_e.push(entry);
            }
            x = x + 1;
        }
        proof {
            assert(e0.take(x as int) =~= e0);
        }
        self.cells.exteriors = out_e;
        let ghost ext_done = self.cells.exteriors@;

        // Interiors.
        let ghost i0 = self.cells.interiors@;
        let mut out_i: Vec<crate::cells::InteriorEntry> = Vec::new();
        let mut y: usize = 0;
        let total_i = self.cells.interiors.len();
        while self.cells.interiors.len() > 0
            invariant
                i0.len() == total_i,
                y <= i0.len(),
                self.cells.interiors@ =~= i0.skip(y as int),
                self.header == old(self).header,
                self.objects.entries@ == obj_done,
                self.cells.exteriors@ == ext_done,
                self.dialogues.entries@ == old(self).dialogues.entries@,
                i0 == old(self).cells.interiors@,
                out_i@ == kept_interiors_unignored(i0.take(y as int)),
            decreases self.cells.interiors@.len(),
        {
            let mut entry = self.cells.interiors.remove(0);
            proof {
                assert(entry == i0[y as int]);
                assert(i0.skip(y as int).drop_first() =~= i0.skip(y as int + 1));
                assert(i0.take(y as int + 1).drop_last() =~= i0.take(y as int));
                assert(i0.take(y as int + 1).last() == i0[y as int]);
            }
            let drop_cell = match &entry.slot.cell {
                Some(c) => c.ignored,
                None => false,
            };
            if drop_cell {
                entry.slot.cell = None;
            }
            let drop_path = match &entry.slot.pathgrid {
                Some(p) => p.ignored,
                None => false,
            };
            if drop_path {
                entry.slot.pathgrid = None;
            }
            proof {
                assert(entry == prune_int_ignored(i0[y as int]));
            }
            let keep = entry.slot.cell.is_some() || entry.slot.pathgrid.is_some();
            if keep {
                out_i.push(entry);
            }
            y = y + 1;
        }
        proof {
            assert(i0.take(y as int) =~= i0);
        }
        self.cells.interiors = out_i;
        let ghost int_done = self.cells.interiors@;

        // Dialogue groups.
        let ghost d0 = self.dialogues.entries@;
        let mut out_d: Vec<crate::dialogue::DialogueEntry> = Vec::new();
        let mut w: usize = 0;
        let total_d = self.dialogues.entries.len();
        while self.dialogues.entries.len() > 0
            invariant
                d0.len() == total_d,
                w <= d0.len(),
                self.dialogues.entries@ =~= d0.skip(w as int),
                self.header == old(self).header,
                self.objects.entries@ == obj_done,
                self.cells.exteriors@ == ext_done,
                self.cells.interiors@ == int_done,
                d0 == old(self).dialogues.entries@,
                out_d@.len() == kept_entries_unignored(d0.take(w as int)).len(),
                forall|k: int|
                    0 <= k < out_d@.len() ==> grp_unignored(
                        kept_entries_unignored(d0.take(w as int))[k],
                        #[trigger] out_d@[k],
                    ),
            decreases self.dialogues.entries@.len(),
        {
            let mut entry = self.dialogues.entries.remove(0);
            let ghost orig = entry;
            proof {
                assert(orig == d0[w as int]);
                assert(d0.skip(w as int).drop_first() =~= d0.skip(w as int + 1));
                assert(d0.take(w as int + 1).drop_last() =~= d0.take(w as int));
                assert(d0.take(w as int + 1).last() == d0[w as int]);
            }
            let ghost kd_pre = kept_entries_unignored(d0.take(w as int));
            if !entry.group.dialogue.ignored {
                let ghost inf0 = entry.group.infos@;
                let mut kept_inf: Vec<crate::dialogue::InfoRecord> = Vec::new();
                let total_f = entry.group.infos.len();
                let mut f: usize = 0;
                while entry.group.infos.len() > 0
                    invariant
                        inf0.len() == total_f,
                        f <= inf0.len(),
                        entry.group.infos@ =~= inf0.skip(f as int),
                        entry.key@ == orig.key@,
                        entry.group.dialogue == orig.group.dialogue,
                        kept_inf@ == kept_unignored_infos(inf0.take(f as int)),
                    decreases entry.group.infos@.len(),
                {
                    let inf = entry.group.infos.remove(0);
                    proof {
                        assert(inf == inf0[f as int]);
                        assert(inf0.take(f as int + 1).drop_last() =~= inf0.take(f as int));
                        assert(inf0.take(f as int + 1).last() == inf0[f as int]);
                        assert(inf0.skip(f as int).drop_first() =~= inf0.skip(f as int + 1));
                    }
                    if !inf.ignored {
                        kept_inf.push(inf);
                    }
                    f = f + 1;
                }
                proof {
                    assert(inf0.take(f as int) =~= inf0);
                }
                entry.group.infos = kept_inf;
                proof {
                    assert(grp_unignored(d0[w as int], entry));
                    assert(kept_entries_unignored(d0.take(w as int + 1)) == kd_pre.push(
                        d0[w as int],
                    ));
                }
                out_d.push(entry);
            }
            w = w + 1;
        }
        proof {
            assert(d0.take(w as int) =~= d0);
        }
        self.dialogues.entries = out_d;
    }
}

} // verus!

verus! {

/// The record with its ignored flag set to `v`, all else kept.
pub open spec fn obj_ignored_to(
    o: crate::records::ObjectRecord,
    n: crate::records::ObjectRecord,
    v: bool,
) -> bool {
    n.id == o.id && n.deleted == o.deleted && n.payload == o.payload && n.body == o.body
        && n.ignored == v
}

/// The cell with its ignored flag set to `v`, all else kept.
pub open spec fn cell_ignored_to(o: CellData, n: CellData, v: bool) -> bool {
    &&& n.name == o.name
    &&& n.deleted == o.deleted
    &&& n.is_interior == o.is_interior
    &&& n.grid == o.grid
    &&& n.region == o.region
    &&& n.map_color == o.map_color
    &&& n.water_height_bits == o.water_height_bits
    &&& n.atmosphere_payload == o.atmosphere_payload
    &&& n.data_payload == o.data_payload
    &&& n.references == o.references
    &&& n.ignored == v
}

/// The exterior entry with every slot's ignored flag set to `v`.
pub open spec fn ext_ignored_to(
    o: crate::cells::ExteriorEntry,
    n: crate::cells::ExteriorEntry,
    v: bool,
) -> bool {
    &&& n.coords == o.coords
    &&& match o.slot.cell {
        Some(c) => n.slot.cell matches Some(c2) && cell_ignored_to(c, c2, v),
        None => n.slot.cell is None,
    }
    &&& match o.slot.landscape {
        Some(l) => n.slot.landscape matches Some(l2) && l2.deleted == l.deleted && l2.grid
            == l.grid && l2.texture_indices == l.texture_indices && l2.payload == l.payload
            && l2.ignored == v,
        None => n.slot.landscape is None,
    }
    &&& match o.slot.pathgrid {
        Some(p) => n.slot.pathgrid matches Some(p2) && p2.deleted == p.deleted && p2.cell == p.cell
            && p2.grid == p.grid && p2.payload == p.payload && p2.ignored == v,
        None => n.slot.pathgrid is None,
    }
}

/// The interior entry with every slot's ignored flag set to `v`.
pub open spec fn int_ignored_to(
    o: crate::cells::InteriorEntry,
    n: crate::cells::InteriorEntry,
    v: bool,
) -> bool {
    &&& n.name == o.name
    &&& match o.slot.cell {
        Some(c) => n.slot.cell matches Some(c2) && cell_ignored_to(c, c2, v),
        None => n.slot.cell is None,
    }
    &&& match o.slot.pathgrid {
        Some(p) => n.slot.pathgrid matches Some(p2) && p2.deleted == p.deleted && p2.cell == p.cell
            && p2.grid == p.grid && p2.payload == p.payload && p2.ignored == v,
        None => n.slot.pathgrid is None,
    }
}

/// The dialogue entry with the flag set on the topic record and every info.
pub open spec fn grp_ignored_to(
    o: crate::dialogue::DialogueEntry,
    n: crate::dialogue::DialogueEntry,
    v: bool,
) -> bool {
    &&& n.key == o.key
    &&& n.group.dialogue.id == o.group.dialogue.id
    &&& n.group.dialogue.kind == o.group.dialogue.kind
    &&& n.group.dialogue.deleted == o.group.dialogue.deleted
    &&& n.group.dialogue.payload == o.group.dialogue.payload
    &&& n.group.dialogue.ignored == v
    &&& n.group.infos@.len() == o.group.infos@.len()
    &&& forall|q: int|
        0 <= q < o.group.infos@.len() ==> {
            let ni = #[trigger] n.group.infos@[q];
            let oi = o.group.infos@[q];
            ni.id == oi.id && ni.prev_id == oi.prev_id && ni.next_id == oi.next_id && ni.deleted
                == oi.deleted && ni.payload == oi.payload && ni.ignored == v
        }
}

impl PluginData {
    /// Sets the ignored flag of every record in every bucket, leaving all
    /// other data as it is. Partial loads of sibling masters are marked this
    /// way so they join the structural passes but are dropped before output.
    pub fn set_all_ignored(&mut self, ignored: bool)
        ensures
            final (self).header == old(self).header,
            final (self).objects.entries@.len() == old(self).objects.entries@.len(),
            forall|i: int|
                0 <= i < old(self).objects.entries@.len() ==> obj_ignored_to(
                    old(self).objects.entries@[i],
                    #[trigger] final (self).objects.entries@[i],
                    ignored,
                ),
            final (self).cells.exteriors@.len() == old(self).cells.exteriors@.len(),
            forall|i: int|
                0 <= i < old(self).cells.exteriors@.len() ==> ext_ignored_to(
                    old(self).cells.exteriors@[i],
                    #[trigger] final (self).cells.exteriors@[i],
                    ignored,
                ),
            final (self).cells.interiors@.len() == old(self).cells.interiors@.len(),
            forall|i: int|
                0 <= i < old(self).cells.interiors@.len() ==> int_ignored_to(
                    old(self).cells.interiors@[i],
                    #[trigger] final (self).cells.interiors@[i],
                    ignored,
                ),
            final (self).dialogues.entries@.len() == old(self).dialogues.entries@.len(),
            forall|i: int|
                0 <= i < old(self).dialogues.entries@.len() ==> grp_ignored_to(
                    old(self).dialogues.entries@[i],
                    #[trigger] final (self).dialogues.entries@[i],
                    ignored,
                ),
    {
        let ghost o_obj = self.objects.entries@;
        let n_obj = self.objects.entries.len();
        let mut i: usize = 0;
        while i < n_obj
            invariant
                n_obj == o_obj.len(),
                i <= n_obj,
                self.objects.entries@.len() == n_obj,
                o_obj == old(self).objects.entries@,
                self.header == old(self).header,
                self.cells.exteriors@ == old(self).cells.exteriors@,
                self.cells.interiors@ == old(self).cells.interiors@,
                self.dialogues.entries@ == old(self).dialogues.entries@,
                forall|j: int| i <= j < n_obj ==> self.objects.entries@[j] == o_obj[j],
                forall|j: int|
                    0 <= j < i ==> obj_ignored_to(
                        o_obj[j],
                        #[trigger] self.objects.entries@[j],
                        ignored,
                    ),
            decreases n_obj - i,
        {
            let ghost pre = self.objects.entries@;
            let mut e = self.objects.entries.remove(i);
            e.ignored = ignored;
            self.objects.entries.insert(i, e);
            proof {
                assert(self.objects.entries@ =~= pre.update(i as int, self.objects.entries@[i as int]));
            }
            i = i + 1;
        }

        let ghost obj_done = self.objects.entries@;
        let ghost e0 = self.cells.exteriors@;
        let n_ext = self.cells.exteriors.len();
        let mut x: usize = 0;
        while x < n_ext
            invariant
                n_ext == e0.len(),
                x <= n_ext,
                self.cells.exteriors@.len() == n_ext,
                e0 == old(self).cells.exteriors@,
                self.header == old(self).header,
                self.objects.entries@ == obj_done,
                self.cells.interiors@ == old(self).cells.interiors@,
                self.dialogues.entries@ == old(self).dialogues.entries@,
                forall|j: int| x <= j < n_ext ==> self.cells.exteriors@[j] == e0[j],
                forall|j: int|
                    0 <= j < x ==> ext_ignored_to(
                        e0[j],
                        #[trigger] self.cells.exteriors@[j],
                        ignored,
                    ),
            decreases n_ext - x,
        {
            let ghost pre = self.cells.exteriors@;
            let mut entry = self.cells.exteriors.remove(x);
            if let Some(c) = &mut entry.slot.cell {
                c.ignored = ignored;
            }
            if let Some(l) = &mut entry.slot.landscape {
                l.ignored = ignored;
            }
            if let Some(p) = &mut entry.slot.pathgrid {
                p.ignored = ignored;
            }
            self.cells.exteriors.insert(x, entry);
            proof {
                assert(self.cells.exteriors@ =~= pre.update(
                    x as int,
                    self.cells.exteriors@[x as int],
                ));
                assert(ext_ignored_to(e0[x as int], self.cells.exteriors@[x as int], ignored));
            }
            x = x + 1;
        }

        let ghost ext_done = self.cells.exteriors@;
        let ghost i0 = self.cells.interiors@;
        let n_int = self.cells.interiors.len();
        let mut y: usize = 0;
        while y < n_int
            invariant
                n_int == i0.len(),
                y <= n_int,
                self.cells.interiors@.len() == n_int,
                i0 == old(self).cells.interiors@,
                self.header == old(self).header,
                self.objects.entries@ == obj_done,
                self.cells.exteriors@ == ext_done,
                self.dialogues.entries@ == old(self).dialogues.entries@,
                forall|j: int| y <= j < n_int ==> self.cells.interiors@[j] == i0[j],
                forall|j: int|
                    0 <= j < y ==> int_ignored_to(
                        i0[j],
                        #[trigger] self.cells.interiors@[j],
                        ignored,
                    ),
            decreases n_int - y,
        {
            let ghost pre = self.cells.interiors@;
            let mut entry = self.cells.interiors.remove(y);
            if let Some(c) = &mut entry.slot.cell {
                c.ignored = ignored;
            }
            if let Some(p) = &mut entry.slot.pathgrid {
                p.ignored = ignored;
            }
            self.cells.interiors.insert(y, entry);
            proof {
                assert(self.cells.interiors@ =~= pre.update(
                    y as int,
                    self.cells.interiors@[y as int],
                ));
                assert(int_ignored_to(i0[y as int], self.cells.interiors@[y as int], ignored));
            }
            y = y + 1;
        }

        let ghost int_done = self.cells.interiors@;
        let ghost d0 = self.dialogues.entries@;
        let n_dlg = self.dialogues.entries.len();
        let mut w: usize = 0;
        while w < n_dlg
            invariant
                n_dlg == d0.len(),
                w <= n_dlg,
                self.dialogues.entries@.len() == n_dlg,
                d0 == old(self).dialogues.entries@,
                self.header == old(self).header,
                self.objects.entries@ == obj_done,
                self.cells.exteriors@ == ext_done,
                self.cells.interiors@ == int_done,
                forall|j: int| w <= j < n_dlg ==> self.dialogues.entries@[j] == d0[j],
                forall|j: int|
                    0 <= j < w ==> grp_ignored_to(
                        d0[j],
                        #[trigger] self.dialogues.entries@[j],
                        ignored,
                    ),
            decreases n_dlg - w,
        {
            let ghost pre = self.dialogues.entries@;
            let mut entry = self.dialogues.entries.remove(w);
            let ghost orig = entry;
            entry.group.dialogue.ignored = ignored;
            let ghost inf0 = entry.group.infos@;
            let n_inf = entry.group.infos.len();
            let mut f: usize = 0;
            while f < n_inf
                invariant
                    n_inf == inf0.len(),
                    f <= n_inf,
                    entry.group.infos@.len() == n_inf,
                    entry.key == orig.key,
                    entry.group.dialogue.id == orig.group.dialogue.id,
                    entry.group.dialogue.kind == orig.group.dialogue.kind,
                    entry.group.dialogue.deleted == orig.group.dialogue.deleted,
                    entry.group.dialogue.payload == orig.group.dialogue.payload,
                    entry.group.dialogue.ignored == ignored,
                    forall|q: int| f <= q < n_inf ==> entry.group.infos@[q] == inf0[q],
                    forall|q: int|
                        0 <= q < f ==> {
                            let ni = #[trigger] entry.group.infos@[q];
                            let oi = inf0[q];
                            ni.id == oi.id && ni.prev_id == oi.prev_id && ni.next_id == oi.next_id
                                && ni.deleted == oi.deleted && ni.payload == oi.payload
                                && ni.ignored == ignored
                        },
                decreases n_inf - f,
            {
                let ghost ipre = entry.group.infos@;
                let mut inf = entry.group.infos.remove(f);
                inf.ignored = ignored;
                entry.group.infos.insert(f, inf);
                proof {
                    assert(entry.group.infos@ =~= ipre.update(
                        f as int,
                        entry.group.infos@[f as int],
                    ));
                }
                f = f + 1;
            }
            self.dialogues.entries.insert(w, entry);
            proof {
                assert(self.dialogues.entries@ =~= pre.update(
                    w as int,
                    self.dialogues.entries@[w as int],
                ));
                assert(grp_ignored_to(d0[w as int], self.dialogues.entries@[w as int], ignored));
            }
            w = w + 1;
        }
    }
}

} // verus!

verus! {

/// The sum of two counts, capped at the machine limit.
fn add_saturating(a: usize, b: usize) -> (r: usize)
    ensures
        r == if a + b <= usize::MAX {
            a + b
        } else {
            usize::MAX as int
        },
{
    if a <= usize::MAX - b {
        a + b
    } else {
        usize::MAX
    }
}

/// How many records a container contributes to the encoded output, capped
/// at the machine limit.
pub trait CountObjects {
    /// The number of contained records.
    fn count_objects(&self) -> usize;
}

impl CountObjects for crate::dialogue::DialogueGroup {
    /// The topic record plus its infos.
    fn count_objects(&self) -> usize {
        add_saturating(1, self.infos.len())
    }
}

impl CountObjects for Cells {
    fn count_objects(&self) -> usize {
        let mut total: usize = 0;
        let mut i: usize = 0;
        while i < self.exteriors.len()
            invariant
                i <= self.exteriors@.len(),
            decreases self.exteriors@.len() - i,
        {
            let e = &self.exteriors[i];
            if e.slot.cell.is_some() {
                total = add_saturating(total, 1);
            }
            if e.slot.landscape.is_some() {
                total = add_saturating(total, 1);
            }
            if e.slot.pathgrid.is_some() {
                total = add_saturating(total, 1);
            }
            i = i + 1;
        }
        let mut j: usize = 0;
        while j < self.interiors.len()
            invariant
                j <= self.interiors@.len(),
            decreases self.interiors@.len() - j,
        {
            let e = &self.interiors[j];
            if e.slot.cell.is_some() {
                total = add_saturating(total, 1);
            }
            if e.slot.pathgrid.is_some() {
                total = add_saturating(total, 1);
            }
            j = j + 1;
        }
        total
    }
}

impl CountObjects for PluginData {
    /// The header, every object record, every cell slot, and every topic
    /// with its infos.
    fn count_objects(&self) -> usize {
        let mut total: usize = 1;
        total = add_saturating(total, self.objects.entries.len());
        total = add_saturating(total, self.cells.count_objects());
        let mut i: usize = 0;
        while i < self.dialogues.entries.len()
            invariant
                i <= self.dialogues.entries@.len(),
            decreases self.dialogues.entries@.len() - i,
        {
            total = add_saturating(total, self.dialogues.entries[i].group.count_objects());
            i = i + 1;
        }
        total
    }
}

/// Dropping every record whose ignored flag is set (see the inherent
/// method on the plugin for the full statement).
pub trait RemoveIgnored {
    /// Remove all records that are marked as ignored.
    fn remove_ignored(&mut self);
}

impl RemoveIgnored for PluginData {
    fn remove_ignored(&mut self) {
        PluginData::remove_ignored(self);
    }
}

} // verus!
