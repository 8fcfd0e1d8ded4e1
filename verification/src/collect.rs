//! Partitioning a decoded record stream into the buckets of a plugin.
//!
//! Records arrive in stream order. The header replaces any prior one;
//! objects land in the object bucket under their kind tag and lowercased id
//! (records with empty ids are skipped); cells, landscapes and path grids
//! land in the cell buckets by name or grid; a dialogue record opens its
//! topic, and every info joins the topic opened last. A path grid whose
//! cell is absent is an orphan left by an over-eager cleaning tool: at grid
//! (0, 0) with a nonempty cell name it is taken to belong to that interior,
//! otherwise to the exterior at its grid.

use vstd::prelude::*;

use crate::cells::{CellData, Exterior, ExteriorEntry, Interior, InteriorEntry, LandscapeData,
    PathGridData, find_exterior_spec, find_interior_spec};
use crate::dialogue::{DialogueEntry, DialogueGroup, DialogueRecord, InfoRecord, find_dialogue_spec,
    insert_info_spec};
use crate::ids::{lower, to_lowercase};
use crate::masters::Header;
use crate::objects::upsert;
use crate::plugin::PluginData;
use crate::records::ObjectRecord;

verus! {

/// One record of a decoded stream.
pub enum StreamRecord {
    Header(Header),
    Object(ObjectRecord),
    Cell(CellData),
    Landscape(LandscapeData),
    PathGrid(PathGridData),
    Dialogue(DialogueRecord),
    Info(InfoRecord),
}

/// Every info of the stream is preceded by some dialogue record.
pub open spec fn stream_wf(s: Seq<StreamRecord>) -> bool {
    forall|i: int|
        0 <= i < s.len() && (#[trigger] s[i]) is Info ==> exists|j: int|
            0 <= j < i && (#[trigger] s[j]) is Dialogue
}

/// How one stream record changes the buckets and the current topic.
/// `tpre` / `tpost` are the lowercased id of the topic opened last, and
/// `hpre` / `hpost` whether any topic was opened yet.
pub open spec fn collect_step(
    pre: PluginData,
    item: StreamRecord,
    tpre: Seq<u8>,
    hpre: bool,
    post: PluginData,
    tpost: Seq<u8>,
    hpost: bool,
) -> bool {
    match item {
        StreamRecord::Header(h) => {
            &&& post.header == h
            &&& post.objects.entries@ == pre.objects.entries@
            &&& post.cells.exteriors@ == pre.cells.exteriors@
            &&& post.cells.interiors@ == pre.cells.interiors@
            &&& post.dialogues.entries@ == pre.dialogues.entries@
            &&& tpost == tpre && hpost == hpre
        },
        StreamRecord::Object(rec) => {
            &&& post.header == pre.header
            &&& post.objects.entries@ == if rec.id@.len() == 0 {
                pre.objects.entries@
            } else {
                upsert(pre.objects.entries@, rec)
            }
            &&& post.cells.exteriors@ == pre.cells.exteriors@
            &&& post.cells.interiors@ == pre.cells.interiors@
            &&& post.dialogues.entries@ == pre.dialogues.entries@
            &&& tpost == tpre && hpost == hpre
        },
        StreamRecord::Cell(c) => {
            &&& post.header == pre.header
            &&& post.objects.entries@ == pre.objects.entries@
            &&& post.dialogues.entries@ == pre.dialogues.entries@
            &&& tpost == tpre && hpost == hpre
            &&& if !c.is_interior {
                let i = find_exterior_spec(pre.cells.exteriors@, c.grid);
                &&& post.cells.interiors@ == pre.cells.interiors@
                &&& if i >= 0 {
                    post.cells.exteriors@ == pre.cells.exteriors@.update(
                        i,
                        ExteriorEntry {
                            coords: pre.cells.exteriors@[i].coords,
                            slot: Exterior {
                                cell: Some(c),
                                landscape: pre.cells.exteriors@[i].slot.landscape,
                                pathgrid: pre.cells.exteriors@[i].slot.pathgrid,
                            },
                        },
                    )
                } else {
                    &&& post.cells.exteriors@.len() == pre.cells.exteriors@.len() + 1
                    &&& post.cells.exteriors@ == pre.cells.exteriors@.push(
                        ExteriorEntry {
                            coords: c.grid,
                            slot: Exterior { cell: Some(c), landscape: None, pathgrid: None },
                        },
                    )
                }
            } else {
                let key = lower(c.name@);
                let i = find_interior_spec(pre.cells.interiors@, key);
                &&& post.cells.exteriors@ == pre.cells.exteriors@
                &&& if i >= 0 {
                    post.cells.interiors@ == pre.cells.interiors@.update(
                        i,
                        InteriorEntry {
                            name: pre.cells.interiors@[i].name,
                            slot: Interior {
                                cell: Some(c),
                                pathgrid: pre.cells.interiors@[i].slot.pathgrid,
                            },
                        },
                    )
                } else {
                    &&& post.cells.interiors@.len() == pre.cells.interiors@.len() + 1
                    &&& post.cells.interiors@ =~= pre.cells.interiors@.push(
                        post.cells.interiors@[pre.cells.interiors@.len() as int],
                    )
                    &&& post.cells.interiors@[pre.cells.interiors@.len() as int].name@ == key
                    &&& post.cells.interiors@[pre.cells.interiors@.len() as int].slot == (Interior {
                        cell: Some(c),
                        pathgrid: None,
                    })
                }
            }
        },
        StreamRecord::Landscape(l) => {
            &&& post.header == pre.header
            &&& post.objects.entries@ == pre.objects.entries@
            &&& post.cells.interiors@ == pre.cells.interiors@
            &&& post.dialogues.entries@ == pre.dialogues.entries@
            &&& tpost == tpre && hpost == hpre
            &&& {
                let i = find_exterior_spec(pre.cells.exteriors@, l.grid);
                if i >= 0 {
                    post.cells.exteriors@ == pre.cells.exteriors@.update(
                        i,
                        ExteriorEntry {
                            coords: pre.cells.exteriors@[i].coords,
                            slot: Exterior {
                                cell: pre.cells.exteriors@[i].slot.cell,
                                landscape: Some(l),
                                pathgrid: pre.cells.exteriors@[i].slot.pathgrid,
                            },
                        },
                    )
                } else {
                    post.cells.exteriors@ == pre.cells.exteriors@.push(
                        ExteriorEntry {
                            coords: l.grid,
                            slot: Exterior { cell: None, landscape: Some(l), pathgrid: None },
                        },
                    )
                }
            }
        },
        StreamRecord::PathGrid(p) => {
            &&& post.header == pre.header
            &&& post.objects.entries@ == pre.objects.entries@
            &&& post.dialogues.entries@ == pre.dialogues.entries@
            &&& tpost == tpre && hpost == hpre
            &&& {
                let key = lower(p.cell@);
                let ii = find_interior_spec(pre.cells.interiors@, key);
                let ie = find_exterior_spec(pre.cells.exteriors@, p.grid);
                if ii >= 0 {
                    &&& post.cells.exteriors@ == pre.cells.exteriors@
                    &&& post.cells.interiors@ == pre.cells.interiors@.update(
                        ii,
                        InteriorEntry {
                            name: pre.cells.interiors@[ii].name,
                            slot: Interior {
                                cell: pre.cells.interiors@[ii].slot.cell,
                                pathgrid: Some(p),
                            },
                        },
                    )
                } else if ie >= 0 {
                    &&& post.cells.interiors@ == pre.cells.interiors@
                    &&& post.cells.exteriors@ == pre.cells.exteriors@.update(
                        ie,
                        ExteriorEntry {
                            coords: pre.cells.exteriors@[ie].coords,
                            slot: Exterior {
                                cell: pre.cells.exteriors@[ie].slot.cell,
                                landscape: pre.cells.exteriors@[ie].slot.landscape,
                                pathgrid: Some(p),
                            },
                        },
                    )
                } else if p.grid.0 == 0 && p.grid.1 == 0 && p.cell@.len() > 0 {
                    &&& post.cells.exteriors@ == pre.cells.exteriors@
                    &&& post.cells.interiors@.len() == pre.cells.interiors@.len() + 1
                    &&& post.cells.interiors@ =~= pre.cells.interiors@.push(
                        post.cells.interiors@[pre.cells.interiors@.len() as int],
                    )
                    &&& post.cells.interiors@[pre.cells.interiors@.len() as int].name@ == key
                    &&& post.cells.interiors@[pre.cells.interiors@.len() as int].slot == (Interior {
                        cell: None,
                        pathgrid: Some(p),
                    })
                } else {
                    &&& post.cells.interiors@ == pre.cells.interiors@
                    &&& post.cells.exteriors@ == pre.cells.exteriors@.push(
                        ExteriorEntry {
                            coords: p.grid,
                            slot: Exterior { cell: None, landscape: None, pathgrid: Some(p) },
                        },
                    )
                }
            }
        },
        StreamRecord::Dialogue(dlg) => {
            &&& post.header == pre.header
            &&& post.objects.entries@ == pre.objects.entries@
            &&& post.cells.exteriors@ == pre.cells.exteriors@
            &&& post.cells.interiors@ == pre.cells.interiors@
            &&& tpost == lower(dlg.id@) && hpost
            &&& {
                let i = find_dialogue_spec(pre.dialogues.entries@, lower(dlg.id@));
                if i >= 0 {
                    post.dialogues.entries@ == pre.dialogues.entries@.update(
                        i,
                        DialogueEntry {
                            key: pre.dialogues.entries@[i].key,
                            group: DialogueGroup {
                                dialogue: dlg,
                                infos: pre.dialogues.entries@[i].group.infos,
                            },
                        },
                    )
                } else {
                    &&& post.dialogues.entries@.len() == pre.dialogues.entries@.len() + 1
                    &&& post.dialogues.entries@ =~= pre.dialogues.entries@.push(
                        post.dialogues.entries@[pre.dialogues.entries@.len() as int],
                    )
                    &&& post.dialogues.entries@[pre.dialogues.entries@.len() as int].key@ == lower(
                        dlg.id@,
                    )
                    &&& post.dialogues.entries@[pre.dialogues.entries@.len() as int].group.dialogue
                        == dlg
                    &&& post.dialogues.entries@[pre.dialogues.entries@.len() as int].group.infos@.len()
                        == 0
                }
            }
        },
        StreamRecord::Info(info) => {
            &&& hpre
            &&& post.header == pre.header
            &&& post.objects.entries@ == pre.objects.entries@
            &&& post.cells.exteriors@ == pre.cells.exteriors@
            &&& post.cells.interiors@ == pre.cells.interiors@
            &&& tpost == tpre && hpost == hpre
            &&& {
                let i = find_dialogue_spec(pre.dialogues.entries@, tpre);
                &&& i >= 0
                &&& post.dialogues.entries@ == pre.dialogues.entries@.update(
                    i,
                    DialogueEntry {
                        key: pre.dialogues.entries@[i].key,
                        group: DialogueGroup {
                            dialogue: pre.dialogues.entries@[i].group.dialogue,
                            infos: post.dialogues.entries@[i].group.infos,
                        },
                    },
                )
                &&& post.dialogues.entries@[i].group.infos@ == insert_info_spec(
                    pre.dialogues.entries@[i].group.infos@,
                    info,
                )
            }
        },
    }
}

/// `post` is what the buckets become after the whole stream lands, one
/// record at a time (see `collect_step`).
pub open spec fn collected(
    pre: PluginData,
    items: Seq<StreamRecord>,
    tpre: Seq<u8>,
    hpre: bool,
    post: PluginData,
    tpost: Seq<u8>,
    hpost: bool,
) -> bool
    decreases items.len(),
{
    if items.len() == 0 {
        &&& post.header == pre.header
        &&& post.objects.entries@ == pre.objects.entries@
        &&& post.cells.exteriors@ == pre.cells.exteriors@
        &&& post.cells.interiors@ == pre.cells.interiors@
        &&& post.dialogues.entries@ == pre.dialogues.entries@
        &&& tpost == tpre
        &&& hpost == hpre
    } else {
        exists|mid: PluginData, tmid: Seq<u8>, hmid: bool|
            #[trigger] collect_step(pre, items[0], tpre, hpre, mid, tmid, hmid) && collected(
                mid,
                items.drop_first(),
                tmid,
                hmid,
                post,
                tpost,
                hpost,
            )
    }
}

/// Chaining one more landed record onto a collected prefix collects the
/// extended prefix.
pub proof fn lemma_collected_snoc(
    pre: PluginData,
    items: Seq<StreamRecord>,
    x: StreamRecord,
    tpre: Seq<u8>,
    hpre: bool,
    mid: PluginData,
    tmid: Seq<u8>,
    hmid: bool,
    post: PluginData,
    tpost: Seq<u8>,
    hpost: bool,
)
    requires
        collected(pre, items, tpre, hpre, mid, tmid, hmid),
        collect_step(mid, x, tmid, hmid, post, tpost, hpost),
    ensures
        collected(pre, items.push(x), tpre, hpre, post, tpost, hpost),
    decreases items.len(),
{
    if items.len() == 0 {
        assert(items.push(x)[0] == x);
        assert(items.push(x).drop_first() =~= items);
        assert(collect_step(pre, x, tpre, hpre, post, tpost, hpost)) by {
            lemma_step_congruence(mid, pre, x, tmid, hmid, post, tpost, hpost);
        }
        assert(collected(post, items, tpost, hpost, post, tpost, hpost));
    } else {
        let (m1, t1, h1) = choose|m1: PluginData, t1: Seq<u8>, h1: bool|
            #[trigger] collect_step(pre, items[0], tpre, hpre, m1, t1, h1) && collected(
                m1,
                items.drop_first(),
                t1,
                h1,
                mid,
                tmid,
                hmid,
            );
        lemma_collected_snoc(
            m1,
            items.drop_first(),
            x,
            t1,
            h1,
            mid,
            tmid,
            hmid,
            post,
            tpost,
            hpost,
        );
        assert(items.push(x)[0] == items[0]);
        assert(items.push(x).drop_first() =~= items.drop_first().push(x));
        assert(collect_step(pre, items.push(x)[0], tpre, hpre, m1, t1, h1));
    }
}

/// A step out of a state whose buckets match another state's is a step out
/// of that other state.
pub proof fn lemma_step_congruence(
    a: PluginData,
    b: PluginData,
    x: StreamRecord,
    t: Seq<u8>,
    h: bool,
    post: PluginData,
    tpost: Seq<u8>,
    hpost: bool,
)
    requires
        collect_step(a, x, t, h, post, tpost, hpost),
        b.header == a.header,
        b.objects.entries@ == a.objects.entries@,
        b.cells.exteriors@ == a.cells.exteriors@,
        b.cells.interiors@ == a.cells.interiors@,
        b.dialogues.entries@ == a.dialogues.entries@,
    ensures
        collect_step(b, x, t, h, post, tpost, hpost),
{
}

impl PluginData {
    /// Partitions a decoded record stream into the buckets, record by
    /// record in stream order (see `collect_step`). The stream must not
    /// hold an info before the first dialogue record.
    pub fn collect_objects(&mut self, records: Vec<StreamRecord>)
        requires
            stream_wf(records@),
        ensures
            exists|t: Seq<u8>, h: bool|
                collected(*old(self), records@, Seq::empty(), false, *final (self), t, h),
    {
        let ghost items = records@;
        let ghost pd0 = *old(self);
        let mut records = records;
        let mut topic: Vec<u8> = Vec::new();
        let mut has_topic = false;
        let total = records.len();
        let mut i: usize = 0;
        proof {
            assert(items.take(0) =~= Seq::<StreamRecord>::empty());
            assert(topic@ =~= Seq::<u8>::empty());
        }
        while records.len() > 0
            invariant
                items.len() == total,
                i <= items.len(),
                records@ =~= items.skip(i as int),
                stream_wf(items),
                collected(pd0, items.take(i as int), Seq::<u8>::empty(), false, *self, topic@, has_topic),
                has_topic ==> find_dialogue_spec(self.dialogues.entries@, topic@) >= 0,
                !has_topic ==> forall|j: int| 0 <= j < i ==> !((#[trigger] items[j]) is Dialogue),
            decreases records@.len(),
        {
            let item = records.remove(0);
            let ghost item_g = item;
            let ghost pre_pd = *self;
            let ghost t_pre = topic@;
            let ghost h_pre = has_topic;
            proof {
                assert(item == items[i as int]);
                assert(items.skip(i as int).drop_first() =~= items.skip(i as int + 1));
            }
            match item {
                StreamRecord::Header(h) => {
                    let ghost h_g = h;
                    self.header = h;
                    proof {
                        assert(item_g == StreamRecord::Header(h_g));
                        step_header(pre_pd, *self, h_g, t_pre, h_pre);
                    }
                },
                StreamRecord::Object(rec) => {
                    let ghost rec_g = rec;
                    if rec.id.len() > 0 {
                        self.objects.insert(rec);
                    }
                    proof {
                        assert(item_g == StreamRecord::Object(rec_g));
                        step_object(pre_pd, *self, rec_g, t_pre, h_pre);
                    }
                },
                StreamRecord::Cell(c) => {
                    let ghost c_g = c;
                    proof {
                        assert(item_g == StreamRecord::Cell(c_g));
                    }
                    if !c.is_interior {
                        let grid = c.grid;
                        let ghost e_pre = self.cells.exteriors@;
                        proof {
                            assert(e_pre == pre_pd.cells.exteriors@);
                        }
                        let gi = self.cells.get_or_create_exterior(grid);
                        self.cells.set_exterior_cell(gi, c);
                        proof {
                            assert(grid == c_g.grid);
                            assert(find_exterior_spec(e_pre, grid) == find_exterior_spec(
                                pre_pd.cells.exteriors@,
                                c_g.grid,
                            ));
                            if find_exterior_spec(e_pre, grid) < 0 {
                                assert(self.cells.exteriors@ == e_pre.push(
                                    ExteriorEntry {
                                        coords: c_g.grid,
                                        slot: Exterior {
                                            cell: Some(c_g),
                                            landscape: None,
                                            pathgrid: None,
                                        },
                                    },
                                ));
                            }
                            step_cell_ext(pre_pd, *self, c_g, t_pre, h_pre);
                        }
                    } else {
                        let key = to_lowercase(&c.name);
                        let ghost i_pre = self.cells.interiors@;
                        proof {
                            assert(i_pre == pre_pd.cells.interiors@);
                        }
                        let gi = self.cells.get_or_create_interior(&key);
                        self.cells.set_interior_cell(gi, c);
                        proof {
                            if find_interior_spec(i_pre, key@) < 0 {
                                assert(self.cells.interiors@ == i_pre.push(
                                    self.cells.interiors@[i_pre.len() as int],
                                ));
                            }
                            step_cell_int(pre_pd, *self, c_g, t_pre, h_pre);
                        }
                    }
                },
                StreamRecord::Landscape(l) => {
                    let ghost l_g = l;
                    let grid = l.grid;
                    let ghost e_pre = self.cells.exteriors@;
                    proof {
                        assert(e_pre == pre_pd.cells.exteriors@);
                    }
                    let gi = self.cells.get_or_create_exterior(grid);
                    self.cells.set_exterior_landscape(gi, l);
                    proof {
                        assert(item_g == StreamRecord::Landscape(l_g));
                        if find_exterior_spec(e_pre, grid) < 0 {
                            assert(self.cells.exteriors@ == e_pre.push(
                                ExteriorEntry {
                                    coords: l_g.grid,
                                    slot: Exterior {
                                        cell: None,
                                        landscape: Some(l_g),
                                        pathgrid: None,
                                    },
                                },
                            ));
                        }
                        step_landscape(pre_pd, *self, l_g, t_pre, h_pre);
                    }
                },
                StreamRecord::PathGrid(p) => {
                    let ghost p_g = p;
                    proof {
                        assert(item_g == StreamRecord::PathGrid(p_g));
                    }
                    let key = to_lowercase(&p.cell);
                    let grid = p.grid;
                    let name_len = p.cell.len();
                    match self.cells.find_interior(&key) {
                        Some(ii) => {
                            proof {
                                crate::lookup::lemma_first_match(
                                    self.cells.interiors@,
                                    |x: InteriorEntry| x.name@ == key@,
                                );
                            }
                            self.cells.set_interior_pathgrid(ii, p);
                            proof {
                                step_pathgrid(pre_pd, *self, p_g, t_pre, h_pre);
                            }
                        },
                        None => {
                            match self.cells.find_exterior(grid) {
                                Some(ie) => {
                                    proof {
                                        crate::lookup::lemma_first_match(
                                            self.cells.exteriors@,
                                            |x: ExteriorEntry| x.coords == grid,
                                        );
                                    }
                                    self.cells.set_exterior_pathgrid(ie, p);
                                    proof {
                                        step_pathgrid(pre_pd, *self, p_g, t_pre, h_pre);
                                    }
                                },
                                None => {
                                    if grid.0 == 0 && grid.1 == 0 && name_len > 0 {
                                        let ghost i_pre = self.cells.interiors@;
                                        proof {
                                            assert(i_pre == pre_pd.cells.interiors@);
                                        }
                                        let gi = self.cells.get_or_create_interior(&key);
                                        self.cells.set_interior_pathgrid(gi, p);
                                        proof {
                                            assert(self.cells.interiors@ == i_pre.push(
                                                self.cells.interiors@[i_pre.len() as int],
                                            ));
                                            step_pathgrid(pre_pd, *self, p_g, t_pre, h_pre);
                                        }
                                    } else {
                                        let ghost e_pre = self.cells.exteriors@;
                                        proof {
                                            assert(e_pre == pre_pd.cells.exteriors@);
                                        }
                                        let gi = self.cells.get_or_create_exterior(grid);
                                        self.cells.set_exterior_pathgrid(gi, p);
                                        proof {
                                            assert(self.cells.exteriors@ == e_pre.push(
                                                ExteriorEntry {
                                                    coords: p_g.grid,
                                                    slot: Exterior {
                                                        cell: None,
                                                        landscape: None,
                                                        pathgrid: Some(p_g),
                                                    },
                                                },
                                            ));
                                            step_pathgrid(pre_pd, *self, p_g, t_pre, h_pre);
                                        }
                                    }
                                },
                            }
                        },
                    }
                },
                StreamRecord::Dialogue(dlg) => {
                    let ghost dlg_g = dlg;
                    let key = to_lowercase(&dlg.id);
                    let ghost d_pre = self.dialogues.entries@;
                    proof {
                        assert(d_pre == pre_pd.dialogues.entries@);
                    }
                    let gi = self.dialogues.upsert_dialogue_record(&key, dlg);
                    topic = key;
                    has_topic = true;
                    proof {
                        assert(item_g == StreamRecord::Dialogue(dlg_g));
                        if find_dialogue_spec(d_pre, topic@) < 0 {
                            assert(self.dialogues.entries@ == d_pre.push(
                                self.dialogues.entries@[d_pre.len() as int],
                            ));
                        }
                        step_dialogue(pre_pd, *self, dlg_g, t_pre, h_pre);
                        crate::lookup::lemma_first_match(
                            self.dialogues.entries@,
                            |x: DialogueEntry| x.key@ == topic@,
                        );
                        assert(self.dialogues.entries@[gi as int].key@ == topic@);
                        if find_dialogue_spec(self.dialogues.entries@, topic@) == -1 {
                            assert(!((|x: DialogueEntry| x.key@ == topic@)(
                                self.dialogues.entries@[gi as int],
                            )));
                        }
                    }
                },
                StreamRecord::Info(info) => {
                    let ghost info_g = info;
                    proof {
                        assert(item_g == StreamRecord::Info(info_g));
                        assert(items[i as int] is Info);
                        if !has_topic {
                            let j = choose|j: int| 0 <= j < i && (#[trigger] items[j]) is Dialogue;
                            assert(false);
                        }
                    }
                    let gi = match self.dialogues.find(&topic) {
                        Some(gi) => gi,
                        None => {
                            proof {
                                assert(false);
                            }
                            0
                        },
                    };
                    proof {
                        crate::lookup::lemma_first_match(
                            self.dialogues.entries@,
                            |x: DialogueEntry| x.key@ == topic@,
                        );
                        assert((|x: DialogueEntry| x.key@ == topic@)(
                            self.dialogues.entries@[gi as int],
                        ));
                    }
                    let ghost d_pre = self.dialogues.entries@;
                    proof {
                        assert(d_pre == pre_pd.dialogues.entries@);
                    }
                    let mut entry = self.dialogues.entries.remove(gi);
                    entry.group.insert_info(info);
                    self.dialogues.entries.insert(gi, entry);
                    proof {
                        assert(self.dialogues.entries@ == d_pre.update(
                            gi as int,
                            self.dialogues.entries@[gi as int],
                        ));
                        step_info(pre_pd, *self, info_g, t_pre);
                        assert(self.dialogues.entries@[gi as int].key@ == topic@);
                        crate::lookup::lemma_first_match(
                            self.dialogues.entries@,
                            |x: DialogueEntry| x.key@ == topic@,
                        );
                        if find_dialogue_spec(self.dialogues.entries@, topic@) == -1 {
                            assert(!((|x: DialogueEntry| x.key@ == topic@)(
                                self.dialogues.entries@[gi as int],
                            )));
                        }
                    }
                },
            }
            proof {
                assert(collect_step(pre_pd, item_g, t_pre, h_pre, *self, topic@, has_topic));
                lemma_collected_snoc(
                    pd0,
                    items.take(i as int),
                    item_g,
                    Seq::<u8>::empty(),
                    false,
                    pre_pd,
                    t_pre,
                    h_pre,
                    *self,
                    topic@,
                    has_topic,
                );
                assert(items.take(i as int).push(item_g) =~= items.take(i as int + 1));
            }
            i = i + 1;
        }
        proof {
            assert(items.take(i as int) =~= items);
        }
    }
}

} // verus!


verus! {

/// The per-case landing lemmas: each shows that the state change its
/// hypotheses describe is one `collect_step`.
proof fn step_header(pre: PluginData, post: PluginData, hd: Header, t: Seq<u8>, h: bool)
    requires
        post.header == hd,
        post.objects.entries@ == pre.objects.entries@,
        post.cells.exteriors@ == pre.cells.exteriors@,
        post.cells.interiors@ == pre.cells.interiors@,
        post.dialogues.entries@ == pre.dialogues.entries@,
    ensures
        collect_step(pre, StreamRecord::Header(hd), t, h, post, t, h),
{
}

proof fn step_object(pre: PluginData, post: PluginData, rec: ObjectRecord, t: Seq<u8>, h: bool)
    requires
        post.header == pre.header,
        post.objects.entries@ == if rec.id@.len() == 0 {
            pre.objects.entries@
        } else {
            upsert(pre.objects.entries@, rec)
        },
        post.cells.exteriors@ == pre.cells.exteriors@,
        post.cells.interiors@ == pre.cells.interiors@,
        post.dialogues.entries@ == pre.dialogues.entries@,
    ensures
        collect_step(pre, StreamRecord::Object(rec), t, h, post, t, h),
{
}

proof fn step_cell_ext(pre: PluginData, post: PluginData, c: CellData, t: Seq<u8>, h: bool)
    requires
        !c.is_interior,
        post.header == pre.header,
        post.objects.entries@ == pre.objects.entries@,
        post.cells.interiors@ == pre.cells.interiors@,
        post.dialogues.entries@ == pre.dialogues.entries@,
        find_exterior_spec(pre.cells.exteriors@, c.grid) >= 0 ==> post.cells.exteriors@
            == pre.cells.exteriors@.update(
            find_exterior_spec(pre.cells.exteriors@, c.grid),
            ExteriorEntry {
                coords: pre.cells.exteriors@[find_exterior_spec(
                    pre.cells.exteriors@,
                    c.grid,
                )].coords,
                slot: Exterior {
                    cell: Some(c),
                    landscape: pre.cells.exteriors@[find_exterior_spec(
                        pre.cells.exteriors@,
                        c.grid,
                    )].slot.landscape,
                    pathgrid: pre.cells.exteriors@[find_exterior_spec(
                        pre.cells.exteriors@,
                        c.grid,
                    )].slot.pathgrid,
                },
            },
        ),
        find_exterior_spec(pre.cells.exteriors@, c.grid) < 0 ==> post.cells.exteriors@
            == pre.cells.exteriors@.push(
            ExteriorEntry {
                coords: c.grid,
                slot: Exterior { cell: Some(c), landscape: None, pathgrid: None },
            },
        ),
    ensures
        collect_step(pre, StreamRecord::Cell(c), t, h, post, t, h),
{
}

proof fn step_cell_int(pre: PluginData, post: PluginData, c: CellData, t: Seq<u8>, h: bool)
    requires
        c.is_interior,
        post.header == pre.header,
        post.objects.entries@ == pre.objects.entries@,
        post.cells.exteriors@ == pre.cells.exteriors@,
        post.dialogues.entries@ == pre.dialogues.entries@,
        find_interior_spec(pre.cells.interiors@, lower(c.name@)) >= 0 ==> post.cells.interiors@
            == pre.cells.interiors@.update(
            find_interior_spec(pre.cells.interiors@, lower(c.name@)),
            InteriorEntry {
                name: pre.cells.interiors@[find_interior_spec(
                    pre.cells.interiors@,
                    lower(c.name@),
                )].name,
                slot: Interior {
                    cell: Some(c),
                    pathgrid: pre.cells.interiors@[find_interior_spec(
                        pre.cells.interiors@,
                        lower(c.name@),
                    )].slot.pathgrid,
                },
            },
        ),
        find_interior_spec(pre.cells.interiors@, lower(c.name@)) < 0 ==> {
            &&& post.cells.interiors@.len() == pre.cells.interiors@.len() + 1
            &&& post.cells.interiors@ =~= pre.cells.interiors@.push(
                post.cells.interiors@[pre.cells.interiors@.len() as int],
            )
            &&& post.cells.interiors@[pre.cells.interiors@.len() as int].name@ == lower(c.name@)
            &&& post.cells.interiors@[pre.cells.interiors@.len() as int].slot == (Interior {
                cell: Some(c),
                pathgrid: None,
            })
        },
    ensures
        collect_step(pre, StreamRecord::Cell(c), t, h, post, t, h),
{
}

proof fn step_landscape(pre: PluginData, post: PluginData, l: LandscapeData, t: Seq<u8>, h: bool)
    requires
        post.header == pre.header,
        post.objects.entries@ == pre.objects.entries@,
        post.cells.interiors@ == pre.cells.interiors@,
        post.dialogues.entries@ == pre.dialogues.entries@,
        find_exterior_spec(pre.cells.exteriors@, l.grid) >= 0 ==> post.cells.exteriors@
            == pre.cells.exteriors@.update(
            find_exterior_spec(pre.cells.exteriors@, l.grid),
            ExteriorEntry {
                coords: pre.cells.exteriors@[find_exterior_spec(
                    pre.cells.exteriors@,
                    l.grid,
                )].coords,
                slot: Exterior {
                    cell: pre.cells.exteriors@[find_exterior_spec(
                        pre.cells.exteriors@,
                        l.grid,
                    )].slot.cell,
                    landscape: Some(l),
                    pathgrid: pre.cells.exteriors@[find_exterior_spec(
                        pre.cells.exteriors@,
                        l.grid,
                    )].slot.pathgrid,
                },
            },
        ),
        find_exterior_spec(pre.cells.exteriors@, l.grid) < 0 ==> post.cells.exteriors@
            == pre.cells.exteriors@.push(
            ExteriorEntry {
                coords: l.grid,
                slot: Exterior { cell: None, landscape: Some(l), pathgrid: None },
            },
        ),
    ensures
        collect_step(pre, StreamRecord::Landscape(l), t, h, post, t, h),
{
}

proof fn step_pathgrid(pre: PluginData, post: PluginData, p: PathGridData, t: Seq<u8>, h: bool)
    requires
        post.header == pre.header,
        post.objects.entries@ == pre.objects.entries@,
        post.dialogues.entries@ == pre.dialogues.entries@,
        find_interior_spec(pre.cells.interiors@, lower(p.cell@)) >= 0 ==> {
            &&& post.cells.exteriors@ == pre.cells.exteriors@
            &&& post.cells.interiors@ == pre.cells.interiors@.update(
                find_interior_spec(pre.cells.interiors@, lower(p.cell@)),
                InteriorEntry {
                    name: pre.cells.interiors@[find_interior_spec(
                        pre.cells.interiors@,
                        lower(p.cell@),
                    )].name,
                    slot: Interior {
                        cell: pre.cells.interiors@[find_interior_spec(
                            pre.cells.interiors@,
                            lower(p.cell@),
                        )].slot.cell,
                        pathgrid: Some(p),
                    },
                },
            )
        },
        find_interior_spec(pre.cells.interiors@, lower(p.cell@)) < 0 && find_exterior_spec(
            pre.cells.exteriors@,
            p.grid,
        ) >= 0 ==> {
            &&& post.cells.interiors@ == pre.cells.interiors@
            &&& post.cells.exteriors@ == pre.cells.exteriors@.update(
                find_exterior_spec(pre.cells.exteriors@, p.grid),
                ExteriorEntry {
                    coords: pre.cells.exteriors@[find_exterior_spec(
                        pre.cells.exteriors@,
                        p.grid,
                    )].coords,
                    slot: Exterior {
                        cell: pre.cells.exteriors@[find_exterior_spec(
                            pre.cells.exteriors@,
                            p.grid,
                        )].slot.cell,
                        landscape: pre.cells.exteriors@[find_exterior_spec(
                            pre.cells.exteriors@,
                            p.grid,
                        )].slot.landscape,
                        pathgrid: Some(p),
                    },
                },
            )
        },
        find_interior_spec(pre.cells.interiors@, lower(p.cell@)) < 0 && find_exterior_spec(
            pre.cells.exteriors@,
            p.grid,
        ) < 0 && p.grid.0 == 0 && p.grid.1 == 0 && p.cell@.len() > 0 ==> {
            &&& post.cells.exteriors@ == pre.cells.exteriors@
            &&& post.cells.interiors@.len() == pre.cells.interiors@.len() + 1
            &&& post.cells.interiors@ =~= pre.cells.interiors@.push(
                post.cells.interiors@[pre.cells.interiors@.len() as int],
            )
            &&& post.cells.interiors@[pre.cells.interiors@.len() as int].name@ == lower(p.cell@)
            &&& post.cells.interiors@[pre.cells.interiors@.len() as int].slot == (Interior {
                cell: None,
                pathgrid: Some(p),
            })
        },
        find_interior_spec(pre.cells.interiors@, lower(p.cell@)) < 0 && find_exterior_spec(
            pre.cells.exteriors@,
            p.grid,
        ) < 0 && !(p.grid.0 == 0 && p.grid.1 == 0 && p.cell@.len() > 0) ==> {
            &&& post.cells.interiors@ == pre.cells.interiors@
            &&& post.cells.exteriors@ == pre.cells.exteriors@.push(
                ExteriorEntry {
                    coords: p.grid,
                    slot: Exterior { cell: None, landscape: None, pathgrid: Some(p) },
                },
            )
        },
    ensures
        collect_step(pre, StreamRecord::PathGrid(p), t, h, post, t, h),
{
}

proof fn step_dialogue(pre: PluginData, post: PluginData, dlg: DialogueRecord, t: Seq<u8>, h: bool)
    requires
        post.header == pre.header,
        post.objects.entries@ == pre.objects.entries@,
        post.cells.exteriors@ == pre.cells.exteriors@,
        post.cells.interiors@ == pre.cells.interiors@,
        find_dialogue_spec(pre.dialogues.entries@, lower(dlg.id@)) >= 0 ==> post.dialogues.entries@
            == pre.dialogues.entries@.update(
            find_dialogue_spec(pre.dialogues.entries@, lower(dlg.id@)),
            DialogueEntry {
                key: pre.dialogues.entries@[find_dialogue_spec(
                    pre.dialogues.entries@,
                    lower(dlg.id@),
                )].key,
                group: DialogueGroup {
                    dialogue: dlg,
                    infos: pre.dialogues.entries@[find_dialogue_spec(
                        pre.dialogues.entries@,
                        lower(dlg.id@),
                    )].group.infos,
                },
            },
        ),
        find_dialogue_spec(pre.dialogues.entries@, lower(dlg.id@)) < 0 ==> {
            &&& post.dialogues.entries@.len() == pre.dialogues.entries@.len() + 1
            &&& post.dialogues.entries@ =~= pre.dialogues.entries@.push(
                post.dialogues.entries@[pre.dialogues.entries@.len() as int],
            )
            &&& post.dialogues.entries@[pre.dialogues.entries@.len() as int].key@ == lower(dlg.id@)
            &&& post.dialogues.entries@[pre.dialogues.entries@.len() as int].group.dialogue == dlg
            &&& post.dialogues.entries@[pre.dialogues.entries@.len() as int].group.infos@.len()
                == 0
        },
    ensures
        collect_step(pre, StreamRecord::Dialogue(dlg), t, h, post, lower(dlg.id@), true),
{
}

proof fn step_info(pre: PluginData, post: PluginData, info: InfoRecord, t: Seq<u8>)
    requires
        post.header == pre.header,
        post.objects.entries@ == pre.objects.entries@,
        post.cells.exteriors@ == pre.cells.exteriors@,
        post.cells.interiors@ == pre.cells.interiors@,
        find_dialogue_spec(pre.dialogues.entries@, t) >= 0,
        post.dialogues.entries@ == pre.dialogues.entries@.update(
            find_dialogue_spec(pre.dialogues.entries@, t),
            DialogueEntry {
                key: pre.dialogues.entries@[find_dialogue_spec(pre.dialogues.entries@, t)].key,
                group: DialogueGroup {
                    dialogue: pre.dialogues.entries@[find_dialogue_spec(
                        pre.dialogues.entries@,
                        t,
                    )].group.dialogue,
                    infos: post.dialogues.entries@[find_dialogue_spec(
                        pre.dialogues.entries@,
                        t,
                    )].group.infos,
                },
            },
        ),
        post.dialogues.entries@[find_dialogue_spec(pre.dialogues.entries@, t)].group.infos@
            == insert_info_spec(
            pre.dialogues.entries@[find_dialogue_spec(pre.dialogues.entries@, t)].group.infos@,
            info,
        ),
    ensures
        collect_step(pre, StreamRecord::Info(info), t, true, post, t, true),
{
}

} // verus!
