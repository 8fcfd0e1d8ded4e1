//! Remapping landscape texture indices against the merge target (see the
//! module doc of `crate::remap` for the master-index counterpart).
//!
//! Texture indices are local to a file: the same texture may carry different
//! indices in the plugin and in the master. Before merging, each plugin
//! texture record is given the index the master uses for the same key, or a
//! freshly allocated one when the master does not know the texture; every
//! landscape's stored values (`logical index + 1`, 0 reserved for "no
//! texture") are rewritten through the same mapping.

use vstd::prelude::*;

use crate::lookup::{first_match, lemma_first_match};
use crate::objects::find_key;
use crate::plugin::PluginData;
use crate::records::{ObjectBody, ObjectRecord, is_texture, key_tag, key_tag_of, texture_index};

verus! {

/// The index of the first pair whose first component equals `v`, or -1.
pub open spec fn pair_index(pairs: Seq<(u16, u16)>, v: u16) -> int
    decreases pairs.len(),
{
    if pairs.len() == 0 {
        -1
    } else if pairs[0].0 == v {
        0
    } else {
        let r = pair_index(pairs.drop_first(), v);
        if r == -1 {
            -1
        } else {
            r + 1
        }
    }
}

/// `pair_index` returns -1 when no pair starts with `v`, else the first
/// index of one that does.
pub proof fn lemma_pair_index(pairs: Seq<(u16, u16)>, v: u16)
    ensures
        -1 <= pair_index(pairs, v) < pairs.len(),
        pair_index(pairs, v) == -1 ==> forall|j: int|
            0 <= j < pairs.len() ==> (#[trigger] pairs[j]).0 != v,
        pair_index(pairs, v) >= 0 ==> pairs[pair_index(pairs, v)].0 == v && forall|j: int|
            0 <= j < pair_index(pairs, v) ==> (#[trigger] pairs[j]).0 != v,
    decreases pairs.len(),
{
    if pairs.len() > 0 {
        if pairs[0].0 != v {
            let t = pairs.drop_first();
            lemma_pair_index(t, v);
            let f = pair_index(pairs, v);
            if pair_index(t, v) == -1 {
                assert forall|j: int| 0 <= j < pairs.len() implies (#[trigger] pairs[j]).0
                    != v by {
                    if j >= 1 {
                        assert(t[j - 1] == pairs[j]);
                        assert(t[j - 1].0 != v);
                    }
                }
            } else {
                assert(f == pair_index(t, v) + 1);
                assert(t[f - 1] == pairs[f]);
                assert forall|j: int| 0 <= j < f implies (#[trigger] pairs[j]).0 != v by {
                    if j >= 1 {
                        assert(t[j - 1] == pairs[j]);
                        assert(t[j - 1].0 != v);
                    }
                }
            }
        }
    }
}

/// Some texture record among the first `upto` carries an index one below
/// `target`.
pub open spec fn pair_target_witnessed(objs: Seq<ObjectRecord>, upto: int, target: u16) -> bool {
    exists|j: int|
        0 <= j < upto && is_texture(#[trigger] objs[j]) && texture_index(objs[j]) + 1 == target
}

/// What a stored landscape value becomes under the mapping: the second
/// component of the first pair whose first component equals it, or itself.
pub open spec fn remap_value(pairs: Seq<(u16, u16)>, v: u16) -> u16 {
    let i = pair_index(pairs, v);
    if i >= 0 {
        pairs[i].1
    } else {
        v
    }
}

/// Every stored landscape value `v > 0` of the plugin names a texture record:
/// one whose index plus one equals `v`.
pub open spec fn textures_consistent(pd: PluginData) -> bool {
    forall|i: int|
        0 <= i < pd.cells.exteriors@.len() ==> match (#[trigger] pd.cells.exteriors@[i]).slot.landscape {
            Some(l) => forall|k: int|
                0 <= k < l.texture_indices@.len() && (#[trigger] l.texture_indices@[k]) > 0
                    ==> exists|t: int|
                    0 <= t < pd.objects.entries@.len() && is_texture(
                        #[trigger] pd.objects.entries@[t],
                    ) && texture_index(pd.objects.entries@[t]) + 1 == l.texture_indices@[k],
            None => true,
        }
}

/// The master holds a texture record under the same bucket key.
pub open spec fn master_knows(ms: Seq<ObjectRecord>, o: ObjectRecord) -> bool {
    let m = find_key(ms, key_tag(o.body), crate::ids::lower(o.id@));
    m >= 0 && is_texture(ms[m])
}

/// No two texture records of the bucket carry the same index.
pub open spec fn texture_indices_distinct(s: Seq<ObjectRecord>) -> bool {
    forall|i: int, j: int|
        0 <= i < j < s.len() && is_texture(#[trigger] s[i]) && is_texture(#[trigger] s[j])
            ==> texture_index(s[i]) != texture_index(s[j])
}

/// Every texture index of the bucket lies below `bound`.
pub open spec fn texture_indices_below(s: Seq<ObjectRecord>, bound: int) -> bool {
    forall|i: int|
        0 <= i < s.len() && is_texture(#[trigger] s[i]) ==> texture_index(s[i]) < bound
}

/// How many texture records the bucket holds.
pub open spec fn texture_count(s: Seq<ObjectRecord>) -> int
    decreases s.len(),
{
    if s.len() == 0 {
        0
    } else {
        texture_count(s.drop_last()) + if is_texture(s[s.len() - 1]) {
            1int
        } else {
            0int
        }
    }
}

pub proof fn lemma_texture_count_bounds(s: Seq<ObjectRecord>)
    ensures
        0 <= texture_count(s) <= s.len(),
    decreases s.len(),
{
    if s.len() > 0 {
        lemma_texture_count_bounds(s.drop_last());
    }
}

pub proof fn lemma_texture_count_take_step(s: Seq<ObjectRecord>, k: int)
    requires
        0 <= k < s.len(),
    ensures
        texture_count(s.take(k + 1)) == texture_count(s.take(k)) + if is_texture(s[k]) {
            1int
        } else {
            0int
        },
{
    assert(s.take(k + 1).drop_last() =~= s.take(k));
    assert(s.take(k + 1)[k] == s[k]);
}

pub proof fn lemma_texture_count_take_mono(s: Seq<ObjectRecord>, a: int, b: int)
    requires
        0 <= a <= b <= s.len(),
    ensures
        texture_count(s.take(a)) <= texture_count(s.take(b)),
    decreases b - a,
{
    if a < b {
        lemma_texture_count_take_step(s, b - 1);
        lemma_texture_count_take_mono(s, a, b - 1);
    }
}

pub proof fn lemma_texture_count_take_all(s: Seq<ObjectRecord>)
    ensures
        texture_count(s.take(s.len() as int)) == texture_count(s),
{
    assert(s.take(s.len() as int) =~= s);
}

/// Looks up a stored value in the mapping.
fn lookup_pair(pairs: &Vec<(u16, u16)>, v: u16) -> (r: Option<u16>)
    ensures
        r matches Some(n) ==> pair_index(pairs@, v) >= 0 && n == remap_value(pairs@, v),
        r is None ==> pair_index(pairs@, v) == -1,
{
    let mut i: usize = 0;
    while i < pairs.len()
        invariant
            i <= pairs@.len(),
            forall|j: int| 0 <= j < i ==> (#[trigger] pairs@[j]).0 != v,
        decreases pairs@.len() - i,
    {
        if pairs[i].0 == v {
            proof {
                lemma_pair_index(pairs@, v);
                let f = pair_index(pairs@, v);
                assert(pairs@[i as int].0 == v);
                if f > i {
                    assert(pairs@[i as int].0 != v);
                }
                if 0 <= f < i {
                    assert(pairs@[f].0 != v);
                }
                if f == -1 {
                    assert(pairs@[i as int].0 != v);
                }
            }
            return Some(pairs[i].1);
        }
        i = i + 1;
    }
    proof {
        lemma_pair_index(pairs@, v);
        let f = pair_index(pairs@, v);
        if f >= 0 {
            assert(pairs@[f].0 == v);
        }
    }
    None
}

impl PluginData {
    /// One past the highest texture index in the bucket, or `None` when the
    /// plugin holds no texture records.
    pub fn next_texture_index(&self) -> (r: Option<u32>)
        requires
            texture_indices_below(self.objects.entries@, 0xFFFF_FFFF),
        ensures
            r matches Some(n) ==> n >= 1 && texture_indices_below(self.objects.entries@, n as int)
                && exists|t: int|
                0 <= t < self.objects.entries@.len() && is_texture(
                    #[trigger] self.objects.entries@[t],
                ) && texture_index(self.objects.entries@[t]) == n - 1,
            r is None ==> forall|t: int|
                0 <= t < self.objects.entries@.len() ==> !is_texture(
                    #[trigger] self.objects.entries@[t],
                ),
    {
        let mut best: u32 = 0;
        let mut found = false;
        let mut i: usize = 0;
        while i < self.objects.entries.len()
            invariant
                i <= self.objects.entries@.len(),
                texture_indices_below(self.objects.entries@, 0xFFFF_FFFF),
                best < 0xFFFF_FFFFu32,
                !found ==> best == 0,
                !found ==> forall|t: int|
                    0 <= t < i ==> !is_texture(#[trigger] self.objects.entries@[t]),
                found ==> exists|t: int|
                    0 <= t < self.objects.entries@.len() && is_texture(
                        #[trigger] self.objects.entries@[t],
                    ) && texture_index(self.objects.entries@[t]) == best,
                forall|t: int|
                    0 <= t < i && is_texture(#[trigger] self.objects.entries@[t]) ==> texture_index(
                        self.objects.entries@[t],
                    ) <= best,
            decreases self.objects.entries@.len() - i,
        {
            let e = &self.objects.entries[i];
            if let ObjectBody::LandscapeTexture { index } = &e.body {
                let idx = *index;
                proof {
                    assert(is_texture(self.objects.entries@[i as int]));
                    assert(texture_index(self.objects.entries@[i as int]) == idx);
                }
                if !found || idx > best {
                    best = idx;
                }
                found = true;
            }
            i = i + 1;
        }
        if found {
            Some(best + 1)
        } else {
            None
        }
    }

    /// Remaps the plugin's texture indices to agree with `master`: a texture
    /// the master knows under the same key takes the master's index, any
    /// other texture takes a fresh index past the master's highest. Every
    /// landscape's stored values follow through the returned mapping. When
    /// the master holds no textures at all, nothing changes.
    ///
    /// Afterwards every stored landscape value still names a texture record
    /// of the plugin.
    pub fn remap_textures(&mut self, master: &PluginData) -> (g: Ghost<Seq<(u16, u16)>>)
        requires
            textures_consistent(*old(self)),
            texture_indices_distinct(old(self).objects.entries@),
            texture_indices_distinct(master.objects.entries@),
            texture_indices_below(old(self).objects.entries@, 0xFFFF),
            texture_count(old(self).objects.entries@) < 0xFFFF,
            texture_indices_below(
                master.objects.entries@,
                0xFFFF - texture_count(old(self).objects.entries@),
            ),
        ensures
            (forall|t: int|
                0 <= t < master.objects.entries@.len() ==> !is_texture(
                    #[trigger] master.objects.entries@[t],
                )) ==> final (self).objects.entries@ == old(self).objects.entries@ && final (
            self).cells.exteriors@ == old(self).cells.exteriors@ && g@.len() == 0,
            textures_consistent(*final (self)),
            final (self).header == old(self).header,
            final (self).dialogues.entries@ == old(self).dialogues.entries@,
            final (self).cells.interiors@ == old(self).cells.interiors@,
            final (self).objects.entries@.len() == old(self).objects.entries@.len(),
            forall|i: int|
                0 <= i < old(self).objects.entries@.len() && !is_texture(
                    #[trigger] old(self).objects.entries@[i],
                ) ==> final (self).objects.entries@[i] == old(self).objects.entries@[i],
            forall|i: int|
                0 <= i < old(self).objects.entries@.len() && is_texture(
                    #[trigger] old(self).objects.entries@[i],
                ) ==> {
                    let o = old(self).objects.entries@[i];
                    let n = final (self).objects.entries@[i];
                    n.id@ == o.id@ && n.deleted == o.deleted && n.ignored == o.ignored
                        && n.payload == o.payload && is_texture(n) && (master_knows(
                        master.objects.entries@,
                        o,
                    ) ==> texture_index(n) == texture_index(
                        master.objects.entries@[find_key(
                            master.objects.entries@,
                            key_tag(o.body),
                            crate::ids::lower(o.id@),
                        )],
                    )) && (!master_knows(master.objects.entries@, o) ==> texture_indices_below(
                        master.objects.entries@,
                        texture_index(n) as int,
                    ))
                },
            forall|i: int, j: int|
                0 <= i < j < old(self).objects.entries@.len() && is_texture(
                    #[trigger] old(self).objects.entries@[i],
                ) && is_texture(#[trigger] old(self).objects.entries@[j]) && !master_knows(
                    master.objects.entries@,
                    old(self).objects.entries@[i],
                ) && !master_knows(master.objects.entries@, old(self).objects.entries@[j])
                    ==> texture_index(final (self).objects.entries@[i]) != texture_index(
                    final (self).objects.entries@[j],
                ),
            final (self).cells.exteriors@.len() == old(self).cells.exteriors@.len(),
            forall|i: int|
                0 <= i < old(self).cells.exteriors@.len() ==> {
                    let o = #[trigger] old(self).cells.exteriors@[i];
                    let n = final (self).cells.exteriors@[i];
                    n.coords == o.coords && n.slot.cell == o.slot.cell && n.slot.pathgrid
                        == o.slot.pathgrid && match o.slot.landscape {
                        Some(l) => n.slot.landscape matches Some(l2) && l2.deleted == l.deleted
                            && l2.ignored == l.ignored && l2.grid == l.grid && l2.payload
                            == l.payload && l2.texture_indices@.len() == l.texture_indices@.len()
                            && forall|k: int|
                            0 <= k < l.texture_indices@.len() ==> (#[trigger] l2.texture_indices@[k])
                                == if l.texture_indices@[k] == 0 {
                                0u16
                            } else {
                                remap_value(g@, l.texture_indices@[k])
                            },
                        None => n.slot.landscape is None,
                    }
                },
    {
        let ghost olds = old(self).objects.entries@;
        proof {
            lemma_texture_count_bounds(olds);
        }
        let next0 = match master.next_texture_index() {
            Some(n) => n,
            None => {
                proof {
                    assert forall|i: int|
                        0 <= i < self.objects.entries@.len() && is_texture(
                            #[trigger] self.objects.entries@[i],
                        ) implies {
                        let o = self.objects.entries@[i];
                        let m = find_key(
                            master.objects.entries@,
                            key_tag(o.body),
                            crate::ids::lower(o.id@),
                        );
                        m >= 0 && is_texture(master.objects.entries@[m]) ==> texture_index(
                            self.objects.entries@[i],
                        ) == texture_index(master.objects.entries@[m])
                    } by {
                        let o = self.objects.entries@[i];
                        lemma_first_match(
                            master.objects.entries@,
                            |r: ObjectRecord| key_tag(r.body) == key_tag(o.body)
                                && crate::ids::lower(r.id@) == crate::ids::lower(o.id@),
                        );
                        let m = find_key(
                            master.objects.entries@,
                            key_tag(o.body),
                            crate::ids::lower(o.id@),
                        );
                        if 0 <= m < master.objects.entries@.len() {
                            assert(!is_texture(master.objects.entries@[m]));
                        }
                    }
                    assert forall|i: int|
                        0 <= i < self.cells.exteriors@.len() implies match (
                    #[trigger] self.cells.exteriors@[i]).slot.landscape {
                        Some(l) => forall|k: int|
                            0 <= k < l.texture_indices@.len() && (#[trigger] l.texture_indices@[k])
                                > 0 ==> (#[trigger] l.texture_indices@[k]) == if (
                            l.texture_indices@[k]) == 0 {
                                0u16
                            } else {
                                remap_value(Seq::<(u16, u16)>::empty(), l.texture_indices@[k])
                            },
                        None => true,
                    } by {
                        match self.cells.exteriors@[i].slot.landscape {
                            Some(l) => {
                                assert forall|k: int|
                                    0 <= k < l.texture_indices@.len() && (
                                    #[trigger] l.texture_indices@[k]) > 0 implies (
                                l.texture_indices@[k]) == remap_value(
                                    Seq::<(u16, u16)>::empty(),
                                    l.texture_indices@[k],
                                ) by {
                                    lemma_pair_index(
                                        Seq::<(u16, u16)>::empty(),
                                        l.texture_indices@[k],
                                    );
                                }
                            },
                            None => (),
                        }
                    }
                }
                return Ghost(Seq::empty());
            },
        };
        proof {
            let b = 0xFFFF - texture_count(olds);
            let t = choose|t: int|
                0 <= t < master.objects.entries@.len() && is_texture(
                    #[trigger] master.objects.entries@[t],
                ) && texture_index(master.objects.entries@[t]) == next0 - 1;
            assert(texture_index(master.objects.entries@[t]) < b);
        }
        let r = self.remap_textures_from(master, next0);
        r
    }

    /// The build and apply phases of the texture remap, with `next0` the
    /// first fresh index.
    fn remap_textures_from(&mut self, master: &PluginData, next0: u32) -> (g: Ghost<
        Seq<(u16, u16)>,
    >)
        requires
            textures_consistent(*old(self)),
            texture_indices_distinct(old(self).objects.entries@),
            texture_indices_below(old(self).objects.entries@, 0xFFFF),
            1 <= next0,
            next0 + texture_count(old(self).objects.entries@) <= 0xFFFF,
            texture_indices_below(master.objects.entries@, next0 as int),
        ensures
            textures_consistent(*final (self)),
            final (self).header == old(self).header,
            final (self).dialogues.entries@ == old(self).dialogues.entries@,
            final (self).cells.interiors@ == old(self).cells.interiors@,
            final (self).objects.entries@.len() == old(self).objects.entries@.len(),
            forall|i: int|
                0 <= i < old(self).objects.entries@.len() && !is_texture(
                    #[trigger] old(self).objects.entries@[i],
                ) ==> final (self).objects.entries@[i] == old(self).objects.entries@[i],
            forall|i: int|
                0 <= i < old(self).objects.entries@.len() && is_texture(
                    #[trigger] old(self).objects.entries@[i],
                ) ==> {
                    let o = old(self).objects.entries@[i];
                    let n = final (self).objects.entries@[i];
                    n.id@ == o.id@ && n.deleted == o.deleted && n.ignored == o.ignored
                        && n.payload == o.payload && is_texture(n) && (master_knows(
                        master.objects.entries@,
                        o,
                    ) ==> texture_index(n) == texture_index(
                        master.objects.entries@[find_key(
                            master.objects.entries@,
                            key_tag(o.body),
                            crate::ids::lower(o.id@),
                        )],
                    )) && (!master_knows(master.objects.entries@, o) ==> texture_indices_below(
                        master.objects.entries@,
                        texture_index(n) as int,
                    ))
                },
            forall|i: int, j: int|
                0 <= i < j < old(self).objects.entries@.len() && is_texture(
                    #[trigger] old(self).objects.entries@[i],
                ) && is_texture(#[trigger] old(self).objects.entries@[j]) && !master_knows(
                    master.objects.entries@,
                    old(self).objects.entries@[i],
                ) && !master_knows(master.objects.entries@, old(self).objects.entries@[j])
                    ==> texture_index(final (self).objects.entries@[i]) != texture_index(
                    final (self).objects.entries@[j],
                ),
            final (self).cells.exteriors@.len() == old(self).cells.exteriors@.len(),
            forall|i: int|
                0 <= i < old(self).cells.exteriors@.len() ==> {
                    let o = #[trigger] old(self).cells.exteriors@[i];
                    let n = final (self).cells.exteriors@[i];
                    n.coords == o.coords && n.slot.cell == o.slot.cell && n.slot.pathgrid
                        == o.slot.pathgrid && match o.slot.landscape {
                        Some(l) => n.slot.landscape matches Some(l2) && l2.deleted == l.deleted
                            && l2.ignored == l.ignored && l2.grid == l.grid && l2.payload
                            == l.payload && l2.texture_indices@.len() == l.texture_indices@.len()
                            && forall|k: int|
                            0 <= k < l.texture_indices@.len() ==> (#[trigger] l2.texture_indices@[k])
                                == if l.texture_indices@[k] == 0 {
                                0u16
                            } else {
                                remap_value(g@, l.texture_indices@[k])
                            },
                        None => n.slot.landscape is None,
                    }
                },
    {
        let ghost olds = old(self).objects.entries@;
        let mut pairs: Vec<(u16, u16)> = Vec::new();
        let mut counter: u32 = next0;
        proof {
            lemma_texture_count_bounds(olds);
        }
        let n_entries = self.objects.entries.len();
        let mut i: usize = 0;
        while i < n_entries
            invariant
                i <= olds.len(),
                n_entries == olds.len(),
                self.objects.entries@.len() == olds.len(),
                self.header == old(self).header,
                self.cells == old(self).cells,
                self.dialogues.entries@ == old(self).dialogues.entries@,
                texture_indices_distinct(olds),
                texture_indices_below(olds, 0xFFFF),
                texture_indices_below(master.objects.entries@, next0 as int),
                next0 + texture_count(olds) <= 0xFFFF,
                next0 <= counter,
                counter <= next0 + texture_count(olds.take(i as int)),
                forall|j: int| i <= j < olds.len() ==> self.objects.entries@[j] == olds[j],
                forall|j: int|
                    0 <= j < i && !is_texture(#[trigger] olds[j]) ==> self.objects.entries@[j]
                        == olds[j],
                forall|j: int|
                    0 <= j < i && is_texture(#[trigger] olds[j]) ==> {
                        let o = olds[j];
                        let n = self.objects.entries@[j];
                        n.id@ == o.id@ && n.deleted == o.deleted && n.ignored == o.ignored
                            && n.payload == o.payload && is_texture(n) && texture_index(n) < 0xFFFF
                            && (texture_index(n) == texture_index(o) || pair_index(
                            pairs@,
                            (texture_index(o) + 1) as u16,
                        ) >= 0) && (master_knows(master.objects.entries@, o) ==> texture_index(n)
                            == texture_index(
                            master.objects.entries@[find_key(
                                master.objects.entries@,
                                key_tag(o.body),
                                crate::ids::lower(o.id@),
                            )],
                        )) && (!master_knows(master.objects.entries@, o) ==> next0
                            <= texture_index(n) && texture_index(n) < counter
                            && texture_indices_below(
                            master.objects.entries@,
                            texture_index(n) as int,
                        ))
                    },
                forall|j1: int, j2: int|
                    0 <= j1 < j2 < i && is_texture(#[trigger] olds[j1]) && is_texture(
                        #[trigger] olds[j2],
                    ) && !master_knows(master.objects.entries@, olds[j1]) && !master_knows(
                        master.objects.entries@,
                        olds[j2],
                    ) ==> texture_index(self.objects.entries@[j1]) != texture_index(
                        self.objects.entries@[j2],
                    ),
                forall|p: int|
                    0 <= p < pairs@.len() ==> 1 <= (#[trigger] pairs@[p]).0 && 1 <= pairs@[p].1
                        && pair_target_witnessed(self.objects.entries@, i as int, pairs@[p].1),
            decreases n_entries - i,
        {
            proof {
                lemma_texture_count_take_step(olds, i as int);
                lemma_texture_count_take_mono(olds, i as int + 1, olds.len() as int);
                lemma_texture_count_take_all(olds);
            }
            let ghost pairs_pre = pairs@;
            let ghost pre = self.objects.entries@;
            let is_tex = matches!(&self.objects.entries[i].body, ObjectBody::LandscapeTexture { .. });
            if is_tex {
                let old_index = match &self.objects.entries[i].body {
                    ObjectBody::LandscapeTexture { index } => *index,
                    _ => 0,
                };
                proof {
                    assert(texture_index(olds[i as int]) == old_index);
                    assert(old_index < 0xFFFF);
                }
                let tag = key_tag_of(&self.objects.entries[i].body);
                let lid = crate::ids::to_lowercase(&self.objects.entries[i].id);
                let new_index = match master.objects.find(tag, &lid) {
                    Some(m) => {
                        proof {
                            lemma_first_match(
                                master.objects.entries@,
                                |r: ObjectRecord| key_tag(r.body) == tag && crate::ids::lower(r.id@)
                                    == lid@,
                            );
                        }
                        match &master.objects.entries[m].body {
                            ObjectBody::LandscapeTexture { index } => *index,
                            _ => {
                                let n = counter;
                                counter = counter + 1;
                                n
                            },
                        }
                    },
                    None => {
                        let n = counter;
                        counter = counter + 1;
                        n
                    },
                };
                proof {
                    assert(new_index < 0xFFFF);
                }
                if new_index != old_index {
                    let mut e = self.objects.entries.remove(i);
                    e.body = ObjectBody::LandscapeTexture { index: new_index };
                    self.objects.entries.insert(i, e);
                    pairs.push(((old_index as u16) + 1, (new_index as u16) + 1));
                    proof {
                        assert(self.objects.entries@ =~= pre.update(
                            i as int,
                            self.objects.entries@[i as int],
                        ));
                        assert(pairs@ == pairs_pre.push(
                            (((old_index as u16) + 1) as u16, ((new_index as u16) + 1) as u16),
                        ));
                        lemma_pair_index(pairs@, (texture_index(olds[i as int]) + 1) as u16);
                        let fm = pair_index(
                            pairs@,
                            (texture_index(olds[i as int]) + 1) as u16,
                        );
                        if fm == -1 {
                            assert(pairs@[pairs@.len() - 1].0 != (texture_index(olds[i as int])
                                + 1) as u16);
                        }
                        assert(is_texture(self.objects.entries@[i as int]) && texture_index(
                            self.objects.entries@[i as int],
                        ) + 1 == pairs@[pairs@.len() - 1].1);
                        assert forall|p: int| 0 <= p < pairs_pre.len() implies (
                        #[trigger] pairs@[p]) == pairs_pre[p] by {}
                        assert forall|p: int| 0 <= p < pairs_pre.len() implies
                            pair_target_witnessed(
                            self.objects.entries@,
                            i as int + 1,
                            (#[trigger] pairs@[p]).1,
                        ) by {
                            assert(pair_target_witnessed(pre, i as int, pairs_pre[p].1));
                            let j = choose|j: int|
                                0 <= j < i && is_texture(#[trigger] pre[j]) && texture_index(
                                    pre[j],
                                ) + 1 == pairs_pre[p].1;
                            assert(self.objects.entries@[j] == pre[j]);
                            assert(is_texture(self.objects.entries@[j]) && texture_index(
                                self.objects.entries@[j],
                            ) + 1 == pairs@[p].1);
                        }
                        assert(pair_target_witnessed(
                            self.objects.entries@,
                            i as int + 1,
                            pairs@[pairs@.len() - 1].1,
                        ));
                    }
                }
            }
            proof {
                // Pairs only grow; earlier hits in the mapping stay hits.
                assert forall|j: int|
                    0 <= j < i && is_texture(#[trigger] olds[j]) && pair_index(
                        pairs_pre,
                        (texture_index(olds[j]) + 1) as u16,
                    ) >= 0 implies pair_index(
                    pairs@,
                    (texture_index(olds[j]) + 1) as u16,
                ) >= 0 by {
                    let w = (texture_index(olds[j]) + 1) as u16;
                    lemma_pair_index(pairs_pre, w);
                    lemma_pair_index(pairs@, w);
                    let f0 = pair_index(pairs_pre, w);
                    assert(pairs_pre[f0].0 == w);
                    assert(pairs@[f0] == pairs_pre[f0]);
                    if pair_index(pairs@, w) == -1 {
                        assert(pairs@[f0].0 != w);
                    }
                }
            }
            i = i + 1;
        }
        let ghost final_objs = self.objects.entries@;
        let ghost gpairs = pairs@;

        // Apply the mapping to every exterior landscape.
        let ghost ext0 = self.cells.exteriors@;
        let n_ext = self.cells.exteriors.len();
        let mut x: usize = 0;
        while x < n_ext
            invariant
                x <= ext0.len(),
                n_ext == ext0.len(),
                self.cells.exteriors@.len() == ext0.len(),
                self.cells.interiors@ == old(self).cells.interiors@,
                self.header == old(self).header,
                self.dialogues.entries@ == old(self).dialogues.entries@,
                self.objects.entries@ == final_objs,
                gpairs == pairs@,
                forall|j: int| x <= j < ext0.len() ==> self.cells.exteriors@[j] == ext0[j],
                forall|j: int|
                    0 <= j < x ==> {
                        let o = #[trigger] ext0[j];
                        let n = self.cells.exteriors@[j];
                        n.coords == o.coords && n.slot.cell == o.slot.cell && n.slot.pathgrid
                            == o.slot.pathgrid && match o.slot.landscape {
                            Some(l) => n.slot.landscape matches Some(l2) && l2.deleted == l.deleted
                                && l2.ignored == l.ignored && l2.grid == l.grid && l2.payload
                                == l.payload && l2.texture_indices@.len()
                                == l.texture_indices@.len() && forall|k: int|
                                0 <= k < l.texture_indices@.len() ==> (
                                #[trigger] l2.texture_indices@[k]) == if l.texture_indices@[k]
                                    == 0 {
                                    0u16
                                } else {
                                    remap_value(gpairs, l.texture_indices@[k])
                                },
                            None => n.slot.landscape is None,
                        }
                    },
            decreases n_ext - x,
        {
            let ghost pre = self.cells.exteriors@;
            let mut entry = self.cells.exteriors.remove(x);
            if let Some(l) = &mut entry.slot.landscape {
                let ghost l0 = l.texture_indices@;
                let ghost lsnap = *l;
                let nvals = l.texture_indices.len();
                let mut k: usize = 0;
                while k < nvals
                    invariant
                        k <= l0.len(),
                        nvals == l0.len(),
                        l.texture_indices@.len() == l0.len(),
                        l.deleted == lsnap.deleted,
                        l.ignored == lsnap.ignored,
                        l.grid == lsnap.grid,
                        l.payload == lsnap.payload,
                        gpairs == pairs@,
                        forall|q: int| k <= q < l0.len() ==> l.texture_indices@[q] == l0[q],
                        forall|q: int|
                            0 <= q < k ==> (#[trigger] l.texture_indices@[q]) == if l0[q] == 0 {
                                0u16
                            } else {
                                remap_value(gpairs, l0[q])
                            },
                    decreases nvals - k,
                {
                    let v = l.texture_indices[k];
                    if v > 0 {
                        if let Some(nv) = lookup_pair(&pairs, v) {
                            l.texture_indices.set(k, nv);
                        }
                    }
                    k = k + 1;
                }
            }
            self.cells.exteriors.insert(x, entry);
            proof {
                assert(self.cells.exteriors@ =~= pre.update(
                    x as int,
                    self.cells.exteriors@[x as int],
                ));
            }
            x = x + 1;
        }

        // Every surviving stored value still names a texture record.
        proof {
            assert forall|i2: int|
                0 <= i2 < self.cells.exteriors@.len() implies match (
            #[trigger] self.cells.exteriors@[i2]).slot.landscape {
                Some(l2) => forall|k: int|
                    0 <= k < l2.texture_indices@.len() && (#[trigger] l2.texture_indices@[k]) > 0
                        ==> exists|t: int|
                        0 <= t < self.objects.entries@.len() && is_texture(
                            #[trigger] self.objects.entries@[t],
                        ) && texture_index(self.objects.entries@[t]) + 1
                            == l2.texture_indices@[k],
                None => true,
            } by {
                match self.cells.exteriors@[i2].slot.landscape {
                    Some(l2) => {
                        assert forall|k: int|
                            0 <= k < l2.texture_indices@.len() && (
                            #[trigger] l2.texture_indices@[k]) > 0 implies exists|t: int|
                            0 <= t < self.objects.entries@.len() && is_texture(
                                #[trigger] self.objects.entries@[t],
                            ) && texture_index(self.objects.entries@[t]) + 1
                                == l2.texture_indices@[k] by {
                            let ol = ext0[i2].slot.landscape;
                            match ol {
                                Some(l) => {
                                    let v = l.texture_indices@[k];
                                    lemma_pair_index(gpairs, v);
                                    let fm = pair_index(gpairs, v);
                                    if v == 0 {
                                    } else if fm >= 0 {
                                        // Mapped: the recorded pair's target
                                        // names a rewritten texture record.
                                        assert(1 <= gpairs[fm].1);
                                        assert(pair_target_witnessed(
                                            final_objs,
                                            final_objs.len() as int,
                                            gpairs[fm].1,
                                        ));
                                        let t = choose|t: int|
                                            0 <= t < final_objs.len() && is_texture(
                                                #[trigger] final_objs[t],
                                            ) && texture_index(final_objs[t]) + 1
                                                == gpairs[fm].1;
                                        assert(l2.texture_indices@[k] == gpairs[fm].1);
                                    } else {
                                        // Unmapped: the witnessing texture
                                        // kept its index, else its old index
                                        // would head a pair.
                                        assert(l2.texture_indices@[k] == v);
                                        let t = choose|t: int|
                                            0 <= t < olds.len() && is_texture(#[trigger] olds[t])
                                                && texture_index(olds[t]) + 1 == v;
                                        assert(is_texture(self.objects.entries@[t]));
                                        if texture_index(self.objects.entries@[t])
                                            != texture_index(olds[t]) {
                                            let w = (texture_index(olds[t]) + 1) as u16;
                                            lemma_pair_index(gpairs, w);
                                            let f2 = pair_index(gpairs, w);
                                            assert(f2 >= 0);
                                            assert(gpairs[f2].0 == w);
                                            assert(w == v);
                                            assert(gpairs[f2].0 != v);
                                        }
                                    }
                                },
                                None => (),
                            }
                        }
                    },
                    None => (),
                }
            }
        }
        Ghost(pairs@)
    }
}

} // verus!
