//! Merging a plugin's buckets into the merge target's buckets.
//!
//! The policy: the plugin's header replaces the target's; an object record
//! replaces the record with its key or is added; cell slots are moved across
//! when the target's slot is empty and merged field by field otherwise, with
//! the plugin's references extended into the target's table key by key;
//! dialogue groups are moved across or merged info by info with the chain
//! links repaired afterwards.

use vstd::prelude::*;

use crate::cells::{CellData, Exterior, ExteriorEntry, Interior, InteriorEntry, RefEntry};
use crate::dialogue::{DialogueEntry, DialogueGroup, InfoRecord, insert_info_spec, links_repaired};
use crate::objects::{upsert, objects_wf};
use crate::plugin::PluginData;
use crate::records::ObjectRecord;

verus! {

/// The index of the first reference with the given key, or -1.
pub open spec fn ref_index(s: Seq<RefEntry>, m: u32, r: u32) -> int
    decreases s.len(),
{
    if s.len() == 0 {
        -1
    } else if s[0].mast_index == m && s[0].refr_index == r {
        0
    } else {
        let q = ref_index(s.drop_first(), m, r);
        if q == -1 {
            -1
        } else {
            q + 1
        }
    }
}

/// `ref_index` returns -1 when the key is absent, else the first index
/// carrying it.
pub proof fn lemma_ref_index(s: Seq<RefEntry>, m: u32, r: u32)
    ensures
        -1 <= ref_index(s, m, r) < s.len(),
        ref_index(s, m, r) == -1 ==> forall|j: int|
            0 <= j < s.len() ==> !((#[trigger] s[j]).mast_index == m && s[j].refr_index == r),
        ref_index(s, m, r) >= 0 ==> s[ref_index(s, m, r)].mast_index == m && s[ref_index(
            s,
            m,
            r,
        )].refr_index == r && forall|j: int|
            0 <= j < ref_index(s, m, r) ==> !((#[trigger] s[j]).mast_index == m && s[j].refr_index
                == r),
    decreases s.len(),
{
    if s.len() > 0 {
        if !(s[0].mast_index == m && s[0].refr_index == r) {
            let t = s.drop_first();
            lemma_ref_index(t, m, r);
            let f = ref_index(s, m, r);
            if ref_index(t, m, r) == -1 {
                assert forall|j: int| 0 <= j < s.len() implies !((#[trigger] s[j]).mast_index == m
                    && s[j].refr_index == r) by {
                    if j >= 1 {
                        assert(t[j - 1] == s[j]);
                        assert(!(t[j - 1].mast_index == m && t[j - 1].refr_index == r));
                    }
                }
            } else {
                assert(f == ref_index(t, m, r) + 1);
                assert(t[f - 1] == s[f]);
                assert forall|j: int| 0 <= j < f implies !((#[trigger] s[j]).mast_index == m
                    && s[j].refr_index == r) by {
                    if j >= 1 {
                        assert(t[j - 1] == s[j]);
                        assert(!(t[j - 1].mast_index == m && t[j - 1].refr_index == r));
                    }
                }
            }
        }
    }
}

/// Extending a table with one reference: it replaces the reference with its
/// key, or is appended.
pub open spec fn ref_upsert(s: Seq<RefEntry>, e: RefEntry) -> Seq<RefEntry> {
    let i = ref_index(s, e.mast_index, e.refr_index);
    if i >= 0 {
        s.update(i, e)
    } else {
        s.push(e)
    }
}

/// Extending a table with a whole sequence, first entry first.
pub open spec fn ref_upsert_all(t: Seq<RefEntry>, s: Seq<RefEntry>) -> Seq<RefEntry>
    decreases s.len(),
{
    if s.len() == 0 {
        t
    } else {
        ref_upsert_all(ref_upsert(t, s[0]), s.drop_first())
    }
}

pub proof fn lemma_ref_upsert_all_snoc(t: Seq<RefEntry>, s: Seq<RefEntry>, e: RefEntry)
    ensures
        ref_upsert_all(t, s.push(e)) == ref_upsert(ref_upsert_all(t, s), e),
    decreases s.len(),
{
    if s.len() == 0 {
        assert(s.push(e).drop_first() =~= s);
        assert(ref_upsert_all(t, s.push(e)) == ref_upsert_all(ref_upsert(t, e), s));
    } else {
        assert(s.push(e)[0] == s[0]);
        assert(s.push(e).drop_first() =~= s.drop_first().push(e));
        lemma_ref_upsert_all_snoc(ref_upsert(t, s[0]), s.drop_first(), e);
    }
}

/// Inserting a whole info sequence into a group, first info first.
pub open spec fn insert_all_infos(t: Seq<InfoRecord>, s: Seq<InfoRecord>) -> Seq<InfoRecord>
    decreases s.len(),
{
    if s.len() == 0 {
        t
    } else {
        insert_all_infos(insert_info_spec(t, s[0]), s.drop_first())
    }
}

pub proof fn lemma_insert_all_infos_snoc(t: Seq<InfoRecord>, s: Seq<InfoRecord>, e: InfoRecord)
    ensures
        insert_all_infos(t, s.push(e)) == insert_info_spec(insert_all_infos(t, s), e),
    decreases s.len(),
{
    if s.len() == 0 {
        assert(s.push(e).drop_first() =~= s);
        assert(insert_all_infos(t, s.push(e)) == insert_all_infos(insert_info_spec(t, e), s));
    } else {
        assert(s.push(e)[0] == s[0]);
        assert(s.push(e).drop_first() =~= s.drop_first().push(e));
        lemma_insert_all_infos_snoc(insert_info_spec(t, s[0]), s.drop_first(), e);
    }
}

/// Merging a whole object sequence into a bucket, first record first.
pub open spec fn upsert_all(t: Seq<ObjectRecord>, s: Seq<ObjectRecord>) -> Seq<ObjectRecord>
    decreases s.len(),
{
    if s.len() == 0 {
        t
    } else {
        upsert_all(upsert(t, s[0]), s.drop_first())
    }
}

pub proof fn lemma_upsert_all_snoc(t: Seq<ObjectRecord>, s: Seq<ObjectRecord>, e: ObjectRecord)
    ensures
        upsert_all(t, s.push(e)) == upsert(upsert_all(t, s), e),
    decreases s.len(),
{
    if s.len() == 0 {
        assert(s.push(e).drop_first() =~= s);
        assert(upsert_all(t, s.push(e)) == upsert_all(upsert(t, e), s));
    } else {
        assert(s.push(e)[0] == s[0]);
        assert(s.push(e).drop_first() =~= s.drop_first().push(e));
        lemma_upsert_all_snoc(upsert(t, s[0]), s.drop_first(), e);
    }
}

/// The cell-merge policy: the plugin's flags, name and placement win; the
/// special optionals win only when the plugin stores them; the plugin's
/// references extend the target's table, replacing entries with equal keys.
pub open spec fn cell_merged(p: CellData, t: CellData, r: CellData) -> bool {
    &&& r.name == p.name
    &&& r.deleted == p.deleted
    &&& r.ignored == p.ignored
    &&& r.is_interior == p.is_interior
    &&& r.grid == p.grid
    &&& r.data_payload == p.data_payload
    &&& r.region == if p.region is Some {
        p.region
    } else {
        t.region
    }
    &&& r.map_color == if p.map_color is Some {
        p.map_color
    } else {
        t.map_color
    }
    &&& r.water_height_bits == if p.water_height_bits is Some {
        p.water_height_bits
    } else {
        t.water_height_bits
    }
    &&& r.atmosphere_payload == if p.atmosphere_payload is Some {
        p.atmosphere_payload
    } else {
        t.atmosphere_payload
    }
    &&& r.references@ == ref_upsert_all(t.references@, p.references@)
}

/// How one optional cell slot merges.
pub open spec fn cell_slot_merged(p: Option<CellData>, t: Option<CellData>, r: Option<
    CellData,
>) -> bool {
    match p {
        None => r == t,
        Some(pc) => match t {
            None => r == p,
            Some(tc) => r matches Some(rc) && cell_merged(pc, tc, rc),
        },
    }
}

/// How an exterior's three slots merge.
pub open spec fn ext_slot_merged(p: Exterior, t: Exterior, r: Exterior) -> bool {
    &&& cell_slot_merged(p.cell, t.cell, r.cell)
    &&& r.landscape == if p.landscape is Some {
        p.landscape
    } else {
        t.landscape
    }
    &&& r.pathgrid == if p.pathgrid is Some {
        p.pathgrid
    } else {
        t.pathgrid
    }
}

/// How an interior's two slots merge.
pub open spec fn int_slot_merged(p: Interior, t: Interior, r: Interior) -> bool {
    &&& cell_slot_merged(p.cell, t.cell, r.cell)
    &&& r.pathgrid == if p.pathgrid is Some {
        p.pathgrid
    } else {
        t.pathgrid
    }
}

/// How a dialogue group merges: the plugin's topic record wins, its infos
/// are inserted one by one, and the links are then repaired.
pub open spec fn group_merged(p: DialogueGroup, t: DialogueGroup, r: DialogueGroup) -> bool {
    &&& r.dialogue == p.dialogue
    &&& links_repaired(insert_all_infos(t.infos@, p.infos@), r.infos@)
}

/// Extends one reference table entry by entry.
fn extend_references(target: &mut Vec<RefEntry>, mut source: Vec<RefEntry>)
    ensures
        final (target)@ == ref_upsert_all(old(target)@, source@),
{
    let ghost s0 = source@;
    let ghost t0 = target@;
    let total = source.len();
    let mut i: usize = 0;
    while source.len() > 0
        invariant
            s0.len() == total,
            i <= s0.len(),
            source@ =~= s0.skip(i as int),
            target@ == ref_upsert_all(t0, s0.take(i as int)),
        decreases source@.len(),
    {
        let e = source.remove(0);
        proof {
            assert(e == s0[i as int]);
        }
        let ghost pre = target@;
        let m = e.mast_index;
        let r = e.refr_index;
        proof {
            lemma_ref_index(pre, m, r);
        }
        let mut j: usize = 0;
        let n = target.len();
        let mut found = false;
        while j < n && !found
            invariant
                j <= n,
                n == target@.len(),
                target@ == pre,
                !found ==> forall|q: int|
                    0 <= q < j ==> !((#[trigger] target@[q]).mast_index == m
                        && target@[q].refr_index == r),
                found ==> j < n && target@[j as int].mast_index == m && target@[j as int].refr_index
                    == r && forall|q: int|
                    0 <= q < j ==> !((#[trigger] target@[q]).mast_index == m
                        && target@[q].refr_index == r),
            decreases n - j, (if found { 0int } else { 1int }),
        {
            if target[j].mast_index == m && target[j].refr_index == r {
                found = true;
            } else {
                j = j + 1;
            }
        }
        proof {
            lemma_ref_index(pre, m, r);
            let f = ref_index(pre, m, r);
            if found {
                if f > j {
                    assert(!(pre[j as int].mast_index == m && pre[j as int].refr_index == r));
                }
                if 0 <= f < j {
                    assert(!(pre[f].mast_index == m && pre[f].refr_index == r));
                }
                if f == -1 {
                    assert(!(pre[j as int].mast_index == m && pre[j as int].refr_index == r));
                }
                assert(f == j);
            } else {
                if f >= 0 {
                    assert(pre[f].mast_index == m && pre[f].refr_index == r);
                }
            }
        }
        if found {
            target.set(j, e);
        } else {
            target.push(e);
        }
        proof {
            assert(target@ == ref_upsert(pre, s0[i as int]));
            assert(s0.take(i as int).push(s0[i as int]) =~= s0.take(i as int + 1));
            lemma_ref_upsert_all_snoc(t0, s0.take(i as int), s0[i as int]);
            assert(s0.skip(i as int).drop_first() =~= s0.skip(i as int + 1));
        }
        i = i + 1;
    }
    proof {
        assert(s0.take(i as int) =~= s0);
    }
}

impl CellData {
    /// Merges this cell record into `target` (see `cell_merged`).
    pub fn merge_into(self, target: &mut CellData)
        ensures
            cell_merged(self, *old(target), *final (target)),
    {
        let CellData {
            name,
            deleted,
            ignored,
            is_interior,
            grid,
            region,
            map_color,
            water_height_bits,
            atmosphere_payload,
            data_payload,
            references,
        } = self;
        target.name = name;
        target.deleted = deleted;
        target.ignored = ignored;
        target.is_interior = is_interior;
        target.grid = grid;
        target.data_payload = data_payload;
        if region.is_some() {
            target.region = region;
        }
        if map_color.is_some() {
            target.map_color = map_color;
        }
        if water_height_bits.is_some() {
            target.water_height_bits = water_height_bits;
        }
        if atmosphere_payload.is_some() {
            target.atmosphere_payload = atmosphere_payload;
        }
        extend_references(&mut target.references, references);
    }
}

impl DialogueGroup {
    /// Merges this group into `target` (see `group_merged`).
    pub fn merge_into(self, target: &mut DialogueGroup)
        ensures
            group_merged(self, *old(target), *final (target)),
    {
        let DialogueGroup { dialogue, mut infos } = self;
        target.dialogue = dialogue;
        let ghost s0 = infos@;
        let ghost t0 = target.infos@;
        let total = infos.len();
        let mut i: usize = 0;
        while infos.len() > 0
            invariant
                s0.len() == total,
                i <= s0.len(),
                infos@ =~= s0.skip(i as int),
                target.infos@ == insert_all_infos(t0, s0.take(i as int)),
                target.dialogue == dialogue,
            decreases infos@.len(),
        {
            let info = infos.remove(0);
            proof {
                assert(info == s0[i as int]);
            }
            target.insert_info(info);
            proof {
                assert(s0.take(i as int).push(s0[i as int]) =~= s0.take(i as int + 1));
                lemma_insert_all_infos_snoc(t0, s0.take(i as int), s0[i as int]);
                assert(s0.skip(i as int).drop_first() =~= s0.skip(i as int + 1));
            }
            i = i + 1;
        }
        proof {
            assert(s0.take(i as int) =~= s0);
        }
        target.repair_links();
    }
}

} // verus!

verus! {

/// Some entry of the bucket carries this topic key.
pub open spec fn key_present(s: Seq<DialogueEntry>, key: Seq<u8>) -> bool {
    exists|k: int| 0 <= k < s.len() && (#[trigger] s[k]).key@ == key
}

/// Entry `j` of the merged exterior bucket is one of the first `upto`
/// plugin entries, with a key the target did not know.
pub open spec fn ext_appended_upto(
    p: Seq<ExteriorEntry>,
    t: Seq<ExteriorEntry>,
    r: Seq<ExteriorEntry>,
    j: int,
    upto: int,
) -> bool {
    exists|q: int|
        0 <= q < upto && r[j] == #[trigger] p[q] && crate::cells::find_exterior_spec(
            t,
            p[q].coords,
        ) == -1
}

/// See `ext_appended_upto`.
pub open spec fn int_appended_upto(
    p: Seq<InteriorEntry>,
    t: Seq<InteriorEntry>,
    r: Seq<InteriorEntry>,
    j: int,
    upto: int,
) -> bool {
    exists|q: int|
        0 <= q < upto && r[j] == #[trigger] p[q] && crate::cells::find_interior_spec(
            t,
            p[q].name@,
        ) == -1
}

/// See `ext_appended_upto`.
pub open spec fn dlg_appended_upto(
    p: Seq<DialogueEntry>,
    t: Seq<DialogueEntry>,
    r: Seq<DialogueEntry>,
    j: int,
    upto: int,
) -> bool {
    exists|q: int|
        0 <= q < upto && r[j] == #[trigger] p[q] && crate::dialogue::find_dialogue_spec(
            t,
            p[q].key@,
        ) == -1
}

/// The relation the merge establishes for the exterior bucket (the interior
/// and dialogue buckets follow the same shape). Target entries keep their
/// position and key; one matched by a plugin entry holds the merged slots,
/// the others are untouched. Entries past the target's old length are plugin
/// entries whose keys the target did not know.
pub open spec fn exteriors_merged(
    p: Seq<ExteriorEntry>,
    t: Seq<ExteriorEntry>,
    r: Seq<ExteriorEntry>,
) -> bool {
    &&& r.len() >= t.len()
    &&& forall|i: int|
        0 <= i < t.len() ==> (#[trigger] r[i]).coords == t[i].coords && {
            let q = crate::cells::find_exterior_spec(p, t[i].coords);
            if q >= 0 {
                ext_slot_merged(p[q].slot, t[i].slot, r[i].slot)
            } else {
                r[i] == t[i]
            }
        }
    &&& forall|j: int|
        t.len() <= j < r.len() ==> #[trigger] ext_appended_upto(p, t, r, j, p.len() as int)
}

/// See `exteriors_merged`.
pub open spec fn interiors_merged(
    p: Seq<InteriorEntry>,
    t: Seq<InteriorEntry>,
    r: Seq<InteriorEntry>,
) -> bool {
    &&& r.len() >= t.len()
    &&& forall|i: int|
        0 <= i < t.len() ==> (#[trigger] r[i]).name@ == t[i].name@ && {
            let q = crate::cells::find_interior_spec(p, t[i].name@);
            if q >= 0 {
                int_slot_merged(p[q].slot, t[i].slot, r[i].slot)
            } else {
                r[i] == t[i]
            }
        }
    &&& forall|j: int|
        t.len() <= j < r.len() ==> #[trigger] int_appended_upto(p, t, r, j, p.len() as int)
}

/// See `exteriors_merged`.
pub open spec fn dialogues_merged(
    p: Seq<DialogueEntry>,
    t: Seq<DialogueEntry>,
    r: Seq<DialogueEntry>,
) -> bool {
    &&& r.len() >= t.len()
    &&& forall|i: int|
        0 <= i < t.len() ==> (#[trigger] r[i]).key@ == t[i].key@ && {
            let q = crate::dialogue::find_dialogue_spec(p, t[i].key@);
            if q >= 0 {
                group_merged(p[q].group, t[i].group, r[i].group)
            } else {
                r[i] == t[i]
            }
        }
    &&& forall|j: int|
        t.len() <= j < r.len() ==> #[trigger] dlg_appended_upto(p, t, r, j, p.len() as int)
}

impl PluginData {
    /// Applies this plugin onto `target` in place: the plugin's header wins;
    /// objects replace or join the target's records key by key; cell slots
    /// and dialogue groups are merged or moved across (see the `*_merged`
    /// relations). Merging an empty plugin leaves every target bucket as it
    /// was, only the header is restamped.
    pub fn merge_into(self, target: &mut PluginData)
        requires
            crate::cells::exteriors_wf(self.cells.exteriors@),
            crate::cells::interiors_wf(self.cells.interiors@),
            crate::dialogue::dialogues_wf(self.dialogues.entries@),
            crate::cells::exteriors_wf(old(target).cells.exteriors@),
            crate::cells::interiors_wf(old(target).cells.interiors@),
            crate::dialogue::dialogues_wf(old(target).dialogues.entries@),
        ensures
            final (target).header == self.header,
            final (target).objects.entries@ == upsert_all(
                old(target).objects.entries@,
                self.objects.entries@,
            ),
            exteriors_merged(
                self.cells.exteriors@,
                old(target).cells.exteriors@,
                final (target).cells.exteriors@,
            ),
            interiors_merged(
                self.cells.interiors@,
                old(target).cells.interiors@,
                final (target).cells.interiors@,
            ),
            dialogues_merged(
                self.dialogues.entries@,
                old(target).dialogues.entries@,
                final (target).dialogues.entries@,
            ),
            forall|q: int|
                0 <= q < self.cells.exteriors@.len() ==> crate::deletions::coords_present(
                    final (target).cells.exteriors@,
                    (#[trigger] self.cells.exteriors@[q]).coords,
                ),
            forall|q: int|
                0 <= q < self.cells.interiors@.len() ==> crate::deletions::name_present(
                    final (target).cells.interiors@,
                    (#[trigger] self.cells.interiors@[q]).name@,
                ),
            forall|q: int|
                0 <= q < self.dialogues.entries@.len() ==> key_present(
                    final (target).dialogues.entries@,
                    (#[trigger] self.dialogues.entries@[q]).key@,
                ),
            self.objects.entries@.len() == 0 ==> final (target).objects.entries@ == old(
                target,
            ).objects.entries@,
            self.cells.exteriors@.len() == 0 ==> final (target).cells.exteriors@ == old(
                target,
            ).cells.exteriors@,
            self.cells.interiors@.len() == 0 ==> final (target).cells.interiors@ == old(
                target,
            ).cells.interiors@,
            self.dialogues.entries@.len() == 0 ==> final (target).dialogues.entries@ == old(
                target,
            ).dialogues.entries@,
    {
        let PluginData { header, objects, cells, dialogues } = self;
        let ghost p_ext = cells.exteriors@;
        let ghost p_int = cells.interiors@;
        let ghost p_dlg = dialogues.entries@;
        let ghost p_obj = objects.entries@;

        target.header = header;

        // Objects: replace or join, record by record.
        let mut src_objs = objects.entries;
        let ghost t_obj = target.objects.entries@;
        let total_o = src_objs.len();
        let mut i: usize = 0;
        while src_objs.len() > 0
            invariant
                p_obj.len() == total_o,
                i <= p_obj.len(),
                src_objs@ =~= p_obj.skip(i as int),
                target.objects.entries@ == upsert_all(t_obj, p_obj.take(i as int)),
                target.header == header,
                target.cells.exteriors@ == old(target).cells.exteriors@,
                target.cells.interiors@ == old(target).cells.interiors@,
                target.dialogues.entries@ == old(target).dialogues.entries@,
            decreases src_objs@.len(),
        {
            let rec = src_objs.remove(0);
            proof {
                assert(rec == p_obj[i as int]);
            }
            target.objects.insert(rec);
            proof {
                assert(p_obj.take(i as int).push(p_obj[i as int]) =~= p_obj.take(i as int + 1));
                lemma_upsert_all_snoc(t_obj, p_obj.take(i as int), p_obj[i as int]);
                assert(p_obj.skip(i as int).drop_first() =~= p_obj.skip(i as int + 1));
            }
            i = i + 1;
        }
        proof {
            assert(p_obj.take(i as int) =~= p_obj);
        }

        // Exteriors: merge slots or move the entry across.
        let ghost t_ext = target.cells.exteriors@;
        let mut src_ext = cells.exteriors;
        let total_e = src_ext.len();
        let mut e: usize = 0;
        while src_ext.len() > 0
            invariant
                p_ext.len() == total_e,
                e <= p_ext.len(),
                src_ext@ =~= p_ext.skip(e as int),
                crate::cells::exteriors_wf(p_ext),
                crate::cells::exteriors_wf(t_ext),
                target.header == header,
                target.objects.entries@ == upsert_all(t_obj, p_obj),
                target.dialogues.entries@ == old(target).dialogues.entries@,
                target.cells.interiors@ == old(target).cells.interiors@,
                target.cells.exteriors@.len() >= t_ext.len(),
                forall|k: int|
                    0 <= k < t_ext.len() ==> (#[trigger] target.cells.exteriors@[k]).coords
                        == t_ext[k].coords && {
                        let q = crate::cells::find_exterior_spec(
                            p_ext.take(e as int),
                            t_ext[k].coords,
                        );
                        if q >= 0 {
                            ext_slot_merged(
                                p_ext[q].slot,
                                t_ext[k].slot,
                                target.cells.exteriors@[k].slot,
                            )
                        } else {
                            target.cells.exteriors@[k] == t_ext[k]
                        }
                    },
                forall|j: int|
                    t_ext.len() <= j < target.cells.exteriors@.len() ==> #[trigger] ext_appended_upto(
                        p_ext,
                        t_ext,
                        target.cells.exteriors@,
                        j,
                        e as int,
                    ),
                forall|q: int|
                    0 <= q < e ==> crate::deletions::coords_present(
                        target.cells.exteriors@,
                        (#[trigger] p_ext[q]).coords,
                    ),
            decreases src_ext@.len(),
        {
            let entry = src_ext.remove(0);
            let ghost entry_g = entry;
            proof {
                assert(entry == p_ext[e as int]);
                crate::lookup::lemma_first_match(
                    p_ext.take(e as int),
                    |x: ExteriorEntry| x.coords == entry.coords,
                );
            }
            let ghost cur = target.cells.exteriors@;
            match target.cells.find_exterior(entry.coords) {
                Some(ti) => {
                    proof {
                        crate::lookup::lemma_first_match(
                            cur,
                            |x: ExteriorEntry| x.coords == entry.coords,
                        );
                        // The hit lies in the old prefix: appended entries
                        // carry plugin keys, and plugin keys are unique.
                        if ti >= t_ext.len() {
                            assert(ext_appended_upto(p_ext, t_ext, cur, ti as int, e as int));
                            let q = choose|q: int|
                                0 <= q < e && cur[ti as int] == #[trigger] p_ext[q]
                                    && crate::cells::find_exterior_spec(t_ext, p_ext[q].coords)
                                    == -1;
                            assert(false);
                        }
                    }
                    let ghost pre = target.cells.exteriors@;
                    let mut tentry = target.cells.exteriors.remove(ti);
                    let ExteriorEntry { coords: _, slot } = entry;
                    let Exterior { cell, landscape, pathgrid } = slot;
                    match cell {
                        Some(pc) => {
                            match &mut tentry.slot.cell {
                                Some(tc) => {
                                    pc.merge_into(tc);
                                },
                                None => {
                                    tentry.slot.cell = Some(pc);
                                },
                            }
                        },
                        None => {},
                    }
                    if landscape.is_some() {
                        tentry.slot.landscape = landscape;
                    }
                    if pathgrid.is_some() {
                        tentry.slot.pathgrid = pathgrid;
                    }
                    target.cells.exteriors.insert(ti, tentry);
                    proof {
                        assert(target.cells.exteriors@ =~= pre.update(
                            ti as int,
                            target.cells.exteriors@[ti as int],
                        ));
                        assert(target.cells.exteriors@[ti as int].coords == entry_g.coords);
                        assert(crate::deletions::coords_present(
                            target.cells.exteriors@,
                            entry_g.coords,
                        ));
                    }
                },
                None => {
                    proof {
                        crate::lookup::lemma_first_match(
                            cur,
                            |x: ExteriorEntry| x.coords == entry.coords,
                        );
                        crate::lookup::lemma_first_match(
                            t_ext,
                            |x: ExteriorEntry| x.coords == entry.coords,
                        );
                        let f = crate::cells::find_exterior_spec(t_ext, entry.coords);
                        if f >= 0 {
                            assert(cur[f].coords == entry.coords);
                        }
                    }
                    target.cells.exteriors.push(entry);
                    proof {
                        assert(target.cells.exteriors@[target.cells.exteriors@.len() - 1]
                            == entry_g);
                        assert(crate::deletions::coords_present(
                            target.cells.exteriors@,
                            entry_g.coords,
                        ));
                    }
                },
            }
            proof {
                assert(p_ext.skip(e as int).drop_first() =~= p_ext.skip(e as int + 1));
                let pe = p_ext.take(e as int);
                assert(p_ext.take(e as int + 1) =~= pe.push(entry_g));
                assert forall|k: int| 0 <= k < t_ext.len() implies crate::cells::find_exterior_spec(
                    p_ext.take(e as int + 1),
                    (#[trigger] t_ext[k]).coords,
                ) == (if crate::cells::find_exterior_spec(pe, t_ext[k].coords) >= 0 {
                    crate::cells::find_exterior_spec(pe, t_ext[k].coords)
                } else if entry_g.coords == t_ext[k].coords {
                    e as int
                } else {
                    -1int
                }) by {
                    crate::lookup::lemma_first_match_push(
                        pe,
                        entry_g,
                        |x: ExteriorEntry| x.coords == t_ext[k].coords,
                    );
                }
                assert forall|j: int| #![trigger target.cells.exteriors@[j]]
                    t_ext.len() <= j < target.cells.exteriors@.len() implies ext_appended_upto(
                    p_ext,
                    t_ext,
                    target.cells.exteriors@,
                    j,
                    e as int + 1,
                ) by {
                    if j < cur.len() {
                        assert(ext_appended_upto(p_ext, t_ext, cur, j, e as int));
                        let q = choose|q: int|
                            0 <= q < e && cur[j] == #[trigger] p_ext[q]
                                && crate::cells::find_exterior_spec(t_ext, p_ext[q].coords) == -1;
                        assert(target.cells.exteriors@[j] == cur[j]);
                        assert(target.cells.exteriors@[j] == p_ext[q]);
                    } else {
                        assert(target.cells.exteriors@[j] == p_ext[e as int]);
                        assert(crate::cells::find_exterior_spec(t_ext, entry_g.coords) == -1);
                    }
                }
                assert forall|q: int|
                    0 <= q < e + 1 implies crate::deletions::coords_present(
                    target.cells.exteriors@,
                    (#[trigger] p_ext[q]).coords,
                ) by {
                    if q < e {
                        let k = choose|k: int|
                            0 <= k < cur.len() && (#[trigger] cur[k]).coords == p_ext[q].coords;
                        assert(target.cells.exteriors@[k].coords == cur[k].coords);
                    } else {
                        assert(crate::deletions::coords_present(
                            target.cells.exteriors@,
                            entry_g.coords,
                        ));
                    }
                }
            }
            e = e + 1;
        }
        proof {
            assert(p_ext.take(e as int) =~= p_ext);
            assert(e as int == p_ext.len() as int);
            assert(exteriors_merged(p_ext, t_ext, target.cells.exteriors@));
            if p_ext.len() == 0 {
                if target.cells.exteriors@.len() > t_ext.len() {
                    assert(ext_appended_upto(
                        p_ext,
                        t_ext,
                        target.cells.exteriors@,
                        t_ext.len() as int,
                        p_ext.len() as int,
                    ));
                    let q = choose|q: int|
                        0 <= q < p_ext.len() && target.cells.exteriors@[t_ext.len() as int]
                            == #[trigger] p_ext[q] && crate::cells::find_exterior_spec(
                            t_ext,
                            p_ext[q].coords,
                        ) == -1;
                    assert(false);
                }
                assert(target.cells.exteriors@ =~= t_ext);
            }
        }

        // Interiors: merge slots or move the entry across.
        let ghost t_int = target.cells.interiors@;
        let mut src_int = cells.interiors;
        let total_i = src_int.len();
        let mut n: usize = 0;
        while src_int.len() > 0
            invariant
                p_int.len() == total_i,
                n <= p_int.len(),
                src_int@ =~= p_int.skip(n as int),
                crate::cells::interiors_wf(p_int),
                crate::cells::interiors_wf(t_int),
                target.header == header,
                target.objects.entries@ == upsert_all(t_obj, p_obj),
                target.dialogues.entries@ == old(target).dialogues.entries@,
                exteriors_merged(p_ext, t_ext, target.cells.exteriors@),
                p_ext.len() == 0 ==> target.cells.exteriors@ == t_ext,
                target.cells.interiors@.len() >= t_int.len(),
                forall|k: int|
                    0 <= k < t_int.len() ==> (#[trigger] target.cells.interiors@[k]).name@
                        == t_int[k].name@ && {
                        let q = crate::cells::find_interior_spec(
                            p_int.take(n as int),
                            t_int[k].name@,
                        );
                        if q >= 0 {
                            int_slot_merged(
                                p_int[q].slot,
                                t_int[k].slot,
                                target.cells.interiors@[k].slot,
                            )
                        } else {
                            target.cells.interiors@[k] == t_int[k]
                        }
                    },
                forall|j: int|
                    t_int.len() <= j < target.cells.interiors@.len() ==> #[trigger] int_appended_upto(
                        p_int,
                        t_int,
                        target.cells.interiors@,
                        j,
                        n as int,
                    ),
                forall|q: int|
                    0 <= q < p_ext.len() ==> crate::deletions::coords_present(
                        target.cells.exteriors@,
                        (#[trigger] p_ext[q]).coords,
                    ),
                forall|q: int|
                    0 <= q < n ==> crate::deletions::name_present(
                        target.cells.interiors@,
                        (#[trigger] p_int[q]).name@,
                    ),
            decreases src_int@.len(),
        {
            let entry = src_int.remove(0);
            let ghost entry_g = entry;
            proof {
                assert(entry == p_int[n as int]);
                crate::lookup::lemma_first_match(
                    p_int.take(n as int),
                    |x: InteriorEntry| x.name@ == entry.name@,
                );
            }
            let ghost cur = target.cells.interiors@;
            match target.cells.find_interior(&entry.name) {
                Some(ti) => {
                    proof {
                        crate::lookup::lemma_first_match(
                            cur,
                            |x: InteriorEntry| x.name@ == entry.name@,
                        );
                        if ti >= t_int.len() {
                            assert(int_appended_upto(p_int, t_int, cur, ti as int, n as int));
                            let q = choose|q: int|
                                0 <= q < n && cur[ti as int] == #[trigger] p_int[q]
                                    && crate::cells::find_interior_spec(t_int, p_int[q].name@)
                                    == -1;
                            assert(false);
                        }
                    }
                    let ghost pre = target.cells.interiors@;
                    let mut tentry = target.cells.interiors.remove(ti);
                    let InteriorEntry { name: _, slot } = entry;
                    let Interior { cell, pathgrid } = slot;
                    match cell {
                        Some(pc) => {
                            match &mut tentry.slot.cell {
                                Some(tc) => {
                                    pc.merge_into(tc);
                                },
                                None => {
                                    tentry.slot.cell = Some(pc);
                                },
                            }
                        },
                        None => {},
                    }
                    if pathgrid.is_some() {
                        tentry.slot.pathgrid = pathgrid;
                    }
                    target.cells.interiors.insert(ti, tentry);
                    proof {
                        assert(target.cells.interiors@ =~= pre.update(
                            ti as int,
                            target.cells.interiors@[ti as int],
                        ));
                        assert(target.cells.interiors@[ti as int].name@ == entry_g.name@);
                        assert(crate::deletions::name_present(
                            target.cells.interiors@,
                            entry_g.name@,
                        ));
                    }
                },
                None => {
                    proof {
                        crate::lookup::lemma_first_match(
                            cur,
                            |x: InteriorEntry| x.name@ == entry.name@,
                        );
                        crate::lookup::lemma_first_match(
                            t_int,
                            |x: InteriorEntry| x.name@ == entry.name@,
                        );
                        let f = crate::cells::find_interior_spec(t_int, entry.name@);
                        if f >= 0 {
                            assert(cur[f].name@ == entry.name@);
                        }
                    }
                    target.cells.interiors.push(entry);
                    proof {
                        assert(target.cells.interiors@[target.cells.interiors@.len() - 1]
                            == entry_g);
                        assert(crate::deletions::name_present(
                            target.cells.interiors@,
                            entry_g.name@,
                        ));
                    }
                },
            }
            proof {
                assert(p_int.skip(n as int).drop_first() =~= p_int.skip(n as int + 1));
                let pn = p_int.take(n as int);
                assert(p_int.take(n as int + 1) =~= pn.push(entry_g));
                assert forall|k: int| 0 <= k < t_int.len() implies crate::cells::find_interior_spec(
                    p_int.take(n as int + 1),
                    (#[trigger] t_int[k]).name@,
                ) == (if crate::cells::find_interior_spec(pn, t_int[k].name@) >= 0 {
                    crate::cells::find_interior_spec(pn, t_int[k].name@)
                } else if entry_g.name@ == t_int[k].name@ {
                    n as int
                } else {
                    -1int
                }) by {
                    crate::lookup::lemma_first_match_push(
                        pn,
                        entry_g,
                        |x: InteriorEntry| x.name@ == t_int[k].name@,
                    );
                }
                assert forall|j: int| #![trigger target.cells.interiors@[j]]
                    t_int.len() <= j < target.cells.interiors@.len() implies int_appended_upto(
                    p_int,
                    t_int,
                    target.cells.interiors@,
                    j,
                    n as int + 1,
                ) by {
                    if j < cur.len() {
                        assert(int_appended_upto(p_int, t_int, cur, j, n as int));
                        let q = choose|q: int|
                            0 <= q < n && cur[j] == #[trigger] p_int[q]
                                && crate::cells::find_interior_spec(t_int, p_int[q].name@) == -1;
                        assert(target.cells.interiors@[j] == cur[j]);
                        assert(target.cells.interiors@[j] == p_int[q]);
                    } else {
                        assert(target.cells.interiors@[j] == p_int[n as int]);
                        assert(crate::cells::find_interior_spec(t_int, entry_g.name@) == -1);
                    }
                }
                assert forall|q: int|
                    0 <= q < n + 1 implies crate::deletions::name_present(
                    target.cells.interiors@,
                    (#[trigger] p_int[q]).name@,
                ) by {
                    if q < n {
                        let k = choose|k: int|
                            0 <= k < cur.len() && (#[trigger] cur[k]).name@ == p_int[q].name@;
                        assert(target.cells.interiors@[k].name@ == cur[k].name@);
                    } else {
                        assert(crate::deletions::name_present(
                            target.cells.interiors@,
                            entry_g.name@,
                        ));
                    }
                }
            }
            n = n + 1;
        }
        proof {
            assert(p_int.take(n as int) =~= p_int);
            assert(n as int == p_int.len() as int);
            assert(interiors_merged(p_int, t_int, target.cells.interiors@));
            if p_int.len() == 0 {
                if target.cells.interiors@.len() > t_int.len() {
                    assert(int_appended_upto(
                        p_int,
                        t_int,
                        target.cells.interiors@,
                        t_int.len() as int,
                        p_int.len() as int,
                    ));
                    let q = choose|q: int|
                        0 <= q < p_int.len() && target.cells.interiors@[t_int.len() as int]
                            == #[trigger] p_int[q] && crate::cells::find_interior_spec(
                            t_int,
                            p_int[q].name@,
                        ) == -1;
                    assert(false);
                }
                assert(target.cells.interiors@ =~= t_int);
            }
        }

        // Dialogue groups: merge info by info or move the group across.
        let ghost t_dlg = target.dialogues.entries@;
        let mut src_dlg = dialogues.entries;
        let total_d = src_dlg.len();
        let mut d: usize = 0;
        while src_dlg.len() > 0
            invariant
                p_dlg.len() == total_d,
                d <= p_dlg.len(),
                src_dlg@ =~= p_dlg.skip(d as int),
                crate::dialogue::dialogues_wf(p_dlg),
                crate::dialogue::dialogues_wf(t_dlg),
                target.header == header,
                target.objects.entries@ == upsert_all(t_obj, p_obj),
                exteriors_merged(p_ext, t_ext, target.cells.exteriors@),
                p_ext.len() == 0 ==> target.cells.exteriors@ == t_ext,
                interiors_merged(p_int, t_int, target.cells.interiors@),
                p_int.len() == 0 ==> target.cells.interiors@ == t_int,
                target.dialogues.entries@.len() >= t_dlg.len(),
                forall|k: int|
                    0 <= k < t_dlg.len() ==> (#[trigger] target.dialogues.entries@[k]).key@
                        == t_dlg[k].key@ && {
                        let q = crate::dialogue::find_dialogue_spec(
                            p_dlg.take(d as int),
                            t_dlg[k].key@,
                        );
                        if q >= 0 {
                            group_merged(
                                p_dlg[q].group,
                                t_dlg[k].group,
                                target.dialogues.entries@[k].group,
                            )
                        } else {
                            target.dialogues.entries@[k] == t_dlg[k]
                        }
                    },
                forall|j: int|
                    t_dlg.len() <= j < target.dialogues.entries@.len() ==> #[trigger] dlg_appended_upto(
                        p_dlg,
                        t_dlg,
                        target.dialogues.entries@,
                        j,
                        d as int,
                    ),
                forall|q: int|
                    0 <= q < p_ext.len() ==> crate::deletions::coords_present(
                        target.cells.exteriors@,
                        (#[trigger] p_ext[q]).coords,
                    ),
                forall|q: int|
                    0 <= q < p_int.len() ==> crate::deletions::name_present(
                        target.cells.interiors@,
                        (#[trigger] p_int[q]).name@,
                    ),
                forall|q: int|
                    0 <= q < d ==> key_present(
                        target.dialogues.entries@,
                        (#[trigger] p_dlg[q]).key@,
                    ),
            decreases src_dlg@.len(),
        {
            let entry = src_dlg.remove(0);
            let ghost entry_g = entry;
            proof {
                assert(entry == p_dlg[d as int]);
                crate::lookup::lemma_first_match(
                    p_dlg.take(d as int),
                    |x: DialogueEntry| x.key@ == entry.key@,
                );
            }
            let ghost cur = target.dialogues.entries@;
            match target.dialogues.find(&entry.key) {
                Some(ti) => {
                    proof {
                        crate::lookup::lemma_first_match(
                            cur,
                            |x: DialogueEntry| x.key@ == entry.key@,
                        );
                        if ti >= t_dlg.len() {
                            assert(dlg_appended_upto(p_dlg, t_dlg, cur, ti as int, d as int));
                            let q = choose|q: int|
                                0 <= q < d && cur[ti as int] == #[trigger] p_dlg[q]
                                    && crate::dialogue::find_dialogue_spec(t_dlg, p_dlg[q].key@)
                                    == -1;
                            assert(false);
                        }
                    }
                    let ghost pre = target.dialogues.entries@;
                    let mut tentry = target.dialogues.entries.remove(ti);
                    let DialogueEntry { key: _, group } = entry;
                    group.merge_into(&mut tentry.group);
                    target.dialogues.entries.insert(ti, tentry);
                    proof {
                        assert(target.dialogues.entries@ =~= pre.update(
                            ti as int,
                            target.dialogues.entries@[ti as int],
                        ));
                        assert(target.dialogues.entries@[ti as int].key@ == entry_g.key@);
                        assert(key_present(target.dialogues.entries@, entry_g.key@));
                    }
                },
                None => {
                    proof {
                        crate::lookup::lemma_first_match(
                            cur,
                            |x: DialogueEntry| x.key@ == entry.key@,
                        );
                        crate::lookup::lemma_first_match(
                            t_dlg,
                            |x: DialogueEntry| x.key@ == entry.key@,
                        );
                        let f = crate::dialogue::find_dialogue_spec(t_dlg, entry.key@);
                        if f >= 0 {
                            assert(cur[f].key@ == entry.key@);
                        }
                    }
                    target.dialogues.entries.push(entry);
                    proof {
                        assert(target.dialogues.entries@[target.dialogues.entries@.len() - 1]
                            == entry_g);
                        assert(key_present(target.dialogues.entries@, entry_g.key@));
                    }
                },
            }
            proof {
                assert(p_dlg.skip(d as int).drop_first() =~= p_dlg.skip(d as int + 1));
                let pd = p_dlg.take(d as int);
                assert(p_dlg.take(d as int + 1) =~= pd.push(entry_g));
                assert forall|k: int|
                    0 <= k < t_dlg.len() implies crate::dialogue::find_dialogue_spec(
                    p_dlg.take(d as int + 1),
                    (#[trigger] t_dlg[k]).key@,
                ) == (if crate::dialogue::find_dialogue_spec(pd, t_dlg[k].key@) >= 0 {
                    crate::dialogue::find_dialogue_spec(pd, t_dlg[k].key@)
                } else if entry_g.key@ == t_dlg[k].key@ {
                    d as int
                } else {
                    -1int
                }) by {
                    crate::lookup::lemma_first_match_push(
                        pd,
                        entry_g,
                        |x: DialogueEntry| x.key@ == t_dlg[k].key@,
                    );
                }
                assert forall|j: int| #![trigger target.dialogues.entries@[j]]
                    t_dlg.len() <= j < target.dialogues.entries@.len() implies dlg_appended_upto(
                    p_dlg,
                    t_dlg,
                    target.dialogues.entries@,
                    j,
                    d as int + 1,
                ) by {
                    if j < cur.len() {
                        assert(dlg_appended_upto(p_dlg, t_dlg, cur, j, d as int));
                        let q = choose|q: int|
                            0 <= q < d && cur[j] == #[trigger] p_dlg[q]
                                && crate::dialogue::find_dialogue_spec(t_dlg, p_dlg[q].key@) == -1;
                        assert(target.dialogues.entries@[j] == cur[j]);
                        assert(target.dialogues.entries@[j] == p_dlg[q]);
                    } else {
                        assert(target.dialogues.entries@[j] == p_dlg[d as int]);
                        assert(crate::dialogue::find_dialogue_spec(t_dlg, entry_g.key@) == -1);
                    }
                }
                assert forall|q: int|
                    0 <= q < d + 1 implies key_present(
                    target.dialogues.entries@,
                    (#[trigger] p_dlg[q]).key@,
                ) by {
                    if q < d {
                        let k = choose|k: int|
                            0 <= k < cur.len() && (#[trigger] cur[k]).key@ == p_dlg[q].key@;
                        assert(target.dialogues.entries@[k].key@ == cur[k].key@);
                    } else {
                        assert(key_present(target.dialogues.entries@, entry_g.key@));
                    }
                }
            }
            d = d + 1;
        }
        proof {
            assert(p_dlg.take(d as int) =~= p_dlg);
            assert(d as int == p_dlg.len() as int);
            assert(dialogues_merged(p_dlg, t_dlg, target.dialogues.entries@));
            if p_dlg.len() == 0 {
                if target.dialogues.entries@.len() > t_dlg.len() {
                    assert(dlg_appended_upto(
                        p_dlg,
                        t_dlg,
                        target.dialogues.entries@,
                        t_dlg.len() as int,
                        p_dlg.len() as int,
                    ));
                    let q = choose|q: int|
                        0 <= q < p_dlg.len() && target.dialogues.entries@[t_dlg.len() as int]
                            == #[trigger] p_dlg[q] && crate::dialogue::find_dialogue_spec(
                            t_dlg,
                            p_dlg[q].key@,
                        ) == -1;
                    assert(false);
                }
                assert(target.dialogues.entries@ =~= t_dlg);
            }
        }
    }
}

} // verus!

verus! {

/// Merging a value of a bucket type into a target of the same type; the
/// plugin side of the merge consumes itself.
pub trait MergeInto: Sized {
    /// What the merge asks of its operands.
    spec fn merge_req(self, target: Self) -> bool;

    /// Merge `self` into `target`.
    fn merge_into(self, target: &mut Self)
        requires
            self.merge_req(*old(target)),
    ;
}

impl MergeInto for PluginData {
    open spec fn merge_req(self, target: Self) -> bool {
        &&& crate::cells::exteriors_wf(self.cells.exteriors@)
        &&& crate::cells::interiors_wf(self.cells.interiors@)
        &&& crate::dialogue::dialogues_wf(self.dialogues.entries@)
        &&& crate::cells::exteriors_wf(target.cells.exteriors@)
        &&& crate::cells::interiors_wf(target.cells.interiors@)
        &&& crate::dialogue::dialogues_wf(target.dialogues.entries@)
    }

    fn merge_into(self, target: &mut Self) {
        PluginData::merge_into(self, target);
    }
}

impl MergeInto for CellData {
    open spec fn merge_req(self, target: Self) -> bool {
        true
    }

    fn merge_into(self, target: &mut Self) {
        CellData::merge_into(self, target);
    }
}

impl MergeInto for DialogueGroup {
    open spec fn merge_req(self, target: Self) -> bool {
        true
    }

    fn merge_into(self, target: &mut Self) {
        DialogueGroup::merge_into(self, target);
    }
}

} // verus!
