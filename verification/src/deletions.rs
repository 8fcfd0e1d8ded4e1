//! Deletion cleanup: removing records whose deleted flag is set and purging
//! every dangling mention of them from the surviving records.
//!
//! Deleted ids are collected into a map from lowercased id to a bitset that
//! identifies the kinds deleted under that id; a synthetic mask covers the
//! whole physical class (items, actors, activators, containers, doors,
//! lights, statics, leveled lists). A field is cleaned only when the stored
//! kind set intersects the field's relevant mask; lookups compare ids
//! case-insensitively. An id-valued field is cleared to the empty string, a
//! list entry is dropped.

use vstd::prelude::*;

use crate::ids::{dup_bytes, lower, to_lowercase, bytes_eq};
use crate::records::ObjectBody;

verus! {

pub const FLAG_HEADER: u64 = 0x1;

pub const FLAG_GAME_SETTING: u64 = 0x2;

pub const FLAG_GLOBAL_VARIABLE: u64 = 0x4;

pub const FLAG_CLASS: u64 = 0x8;

pub const FLAG_FACTION: u64 = 0x10;

pub const FLAG_RACE: u64 = 0x20;

pub const FLAG_SOUND: u64 = 0x40;

pub const FLAG_SOUND_GEN: u64 = 0x80;

pub const FLAG_SKILL: u64 = 0x100;

pub const FLAG_MAGIC_EFFECT: u64 = 0x200;

pub const FLAG_SCRIPT: u64 = 0x400;

pub const FLAG_REGION: u64 = 0x800;

pub const FLAG_BIRTHSIGN: u64 = 0x1000;

pub const FLAG_START_SCRIPT: u64 = 0x2000;

pub const FLAG_LANDSCAPE_TEXTURE: u64 = 0x4000;

pub const FLAG_SPELL: u64 = 0x8000;

pub const FLAG_STATIC: u64 = 0x10000;

pub const FLAG_DOOR: u64 = 0x20000;

pub const FLAG_MISC_ITEM: u64 = 0x40000;

pub const FLAG_WEAPON: u64 = 0x80000;

pub const FLAG_CONTAINER: u64 = 0x100000;

pub const FLAG_CREATURE: u64 = 0x200000;

pub const FLAG_BODYPART: u64 = 0x400000;

pub const FLAG_LIGHT: u64 = 0x800000;

pub const FLAG_ENCHANTING: u64 = 0x1000000;

pub const FLAG_NPC: u64 = 0x2000000;

pub const FLAG_ARMOR: u64 = 0x4000000;

pub const FLAG_CLOTHING: u64 = 0x8000000;

pub const FLAG_REPAIR_ITEM: u64 = 0x10000000;

pub const FLAG_ACTIVATOR: u64 = 0x20000000;

pub const FLAG_APPARATUS: u64 = 0x40000000;

pub const FLAG_LOCKPICK: u64 = 0x80000000;

pub const FLAG_PROBE: u64 = 0x100000000;

pub const FLAG_INGREDIENT: u64 = 0x200000000;

pub const FLAG_BOOK: u64 = 0x400000000;

pub const FLAG_ALCHEMY: u64 = 0x800000000;

pub const FLAG_LEVELED_ITEM: u64 = 0x1000000000;

pub const FLAG_LEVELED_CREATURE: u64 = 0x2000000000;

pub const FLAG_CELL: u64 = 0x4000000000;

pub const FLAG_LANDSCAPE: u64 = 0x8000000000;

pub const FLAG_PATH_GRID: u64 = 0x10000000000;

pub const FLAG_DIALOGUE: u64 = 0x20000000000;

pub const FLAG_DIALOGUE_INFO: u64 = 0x40000000000;

/// The whole physical class: deleting any of these kinds invalidates cell
/// references, region and sound-generator creatures, inventory entries,
/// leveled-list entries, magic-effect visuals, body parts and AI targets.
pub const FLAG_PHYSICAL: u64 = FLAG_ACTIVATOR | FLAG_ALCHEMY | FLAG_APPARATUS | FLAG_ARMOR
    | FLAG_BODYPART | FLAG_BOOK | FLAG_CLOTHING | FLAG_CONTAINER | FLAG_CREATURE | FLAG_DOOR
    | FLAG_INGREDIENT | FLAG_LEVELED_CREATURE | FLAG_LEVELED_ITEM | FLAG_LIGHT | FLAG_LOCKPICK
    | FLAG_MISC_ITEM | FLAG_NPC | FLAG_PROBE | FLAG_REPAIR_ITEM | FLAG_STATIC | FLAG_WEAPON;

/// The deletion-kind bit of an object kind.
pub open spec fn flag_of_body(b: ObjectBody) -> u64 {
    match b {
        ObjectBody::GameSetting => FLAG_GAME_SETTING,
        ObjectBody::GlobalVariable => FLAG_GLOBAL_VARIABLE,
        ObjectBody::Class => FLAG_CLASS,
        ObjectBody::Faction => FLAG_FACTION,
        ObjectBody::Race { .. } => FLAG_RACE,
        ObjectBody::Sound => FLAG_SOUND,
        ObjectBody::SoundGen { .. } => FLAG_SOUND_GEN,
        ObjectBody::Skill => FLAG_SKILL,
        ObjectBody::MagicEffect { .. } => FLAG_MAGIC_EFFECT,
        ObjectBody::Script => FLAG_SCRIPT,
        ObjectBody::Region { .. } => FLAG_REGION,
        ObjectBody::Birthsign { .. } => FLAG_BIRTHSIGN,
        ObjectBody::StartScript { .. } => FLAG_START_SCRIPT,
        ObjectBody::LandscapeTexture { .. } => FLAG_LANDSCAPE_TEXTURE,
        ObjectBody::Spell => FLAG_SPELL,
        ObjectBody::Static => FLAG_STATIC,
        ObjectBody::Door { .. } => FLAG_DOOR,
        ObjectBody::MiscItem { .. } => FLAG_MISC_ITEM,
        ObjectBody::Weapon { .. } => FLAG_WEAPON,
        ObjectBody::Container { .. } => FLAG_CONTAINER,
        ObjectBody::Creature { .. } => FLAG_CREATURE,
        ObjectBody::Bodypart => FLAG_BODYPART,
        ObjectBody::Light { .. } => FLAG_LIGHT,
        ObjectBody::Enchanting => FLAG_ENCHANTING,
        ObjectBody::Npc { .. } => FLAG_NPC,
        ObjectBody::Armor { .. } => FLAG_ARMOR,
        ObjectBody::Clothing { .. } => FLAG_CLOTHING,
        ObjectBody::RepairItem { .. } => FLAG_REPAIR_ITEM,
        ObjectBody::Activator { .. } => FLAG_ACTIVATOR,
        ObjectBody::Apparatus { .. } => FLAG_APPARATUS,
        ObjectBody::Lockpick { .. } => FLAG_LOCKPICK,
        ObjectBody::Probe { .. } => FLAG_PROBE,
        ObjectBody::Ingredient { .. } => FLAG_INGREDIENT,
        ObjectBody::Book { .. } => FLAG_BOOK,
        ObjectBody::Alchemy { .. } => FLAG_ALCHEMY,
        ObjectBody::LeveledItem { .. } => FLAG_LEVELED_ITEM,
        ObjectBody::LeveledCreature { .. } => FLAG_LEVELED_CREATURE,
    }
}

/// The deletion-kind bit of an object kind, computed.
pub fn flag_of_body_exec(b: &ObjectBody) -> (r: u64)
    ensures
        r == flag_of_body(*b),
{
    match b {
        ObjectBody::GameSetting => FLAG_GAME_SETTING,
        ObjectBody::GlobalVariable => FLAG_GLOBAL_VARIABLE,
        ObjectBody::Class => FLAG_CLASS,
        ObjectBody::Faction => FLAG_FACTION,
        ObjectBody::Race { .. } => FLAG_RACE,
        ObjectBody::Sound => FLAG_SOUND,
        ObjectBody::SoundGen { .. } => FLAG_SOUND_GEN,
        ObjectBody::Skill => FLAG_SKILL,
        ObjectBody::MagicEffect { .. } => FLAG_MAGIC_EFFECT,
        ObjectBody::Script => FLAG_SCRIPT,
        ObjectBody::Region { .. } => FLAG_REGION,
        ObjectBody::Birthsign { .. } => FLAG_BIRTHSIGN,
        ObjectBody::StartScript { .. } => FLAG_START_SCRIPT,
        ObjectBody::LandscapeTexture { .. } => FLAG_LANDSCAPE_TEXTURE,
        ObjectBody::Spell => FLAG_SPELL,
        ObjectBody::Static => FLAG_STATIC,
        ObjectBody::Door { .. } => FLAG_DOOR,
        ObjectBody::MiscItem { .. } => FLAG_MISC_ITEM,
        ObjectBody::Weapon { .. } => FLAG_WEAPON,
        ObjectBody::Container { .. } => FLAG_CONTAINER,
        ObjectBody::Creature { .. } => FLAG_CREATURE,
        ObjectBody::Bodypart => FLAG_BODYPART,
        ObjectBody::Light { .. } => FLAG_LIGHT,
        ObjectBody::Enchanting => FLAG_ENCHANTING,
        ObjectBody::Npc { .. } => FLAG_NPC,
        ObjectBody::Armor { .. } => FLAG_ARMOR,
        ObjectBody::Clothing { .. } => FLAG_CLOTHING,
        ObjectBody::RepairItem { .. } => FLAG_REPAIR_ITEM,
        ObjectBody::Activator { .. } => FLAG_ACTIVATOR,
        ObjectBody::Apparatus { .. } => FLAG_APPARATUS,
        ObjectBody::Lockpick { .. } => FLAG_LOCKPICK,
        ObjectBody::Probe { .. } => FLAG_PROBE,
        ObjectBody::Ingredient { .. } => FLAG_INGREDIENT,
        ObjectBody::Book { .. } => FLAG_BOOK,
        ObjectBody::Alchemy { .. } => FLAG_ALCHEMY,
        ObjectBody::LeveledItem { .. } => FLAG_LEVELED_ITEM,
        ObjectBody::LeveledCreature { .. } => FLAG_LEVELED_CREATURE,
    }
}

/// One deleted id with the kinds deleted under it.
pub struct DeletionEntry {
    pub id: Vec<u8>,
    pub flags: u64,
}

/// The deleted ids, keyed by lowercased id.
pub struct DeletionMap {
    pub entries: Vec<DeletionEntry>,
}

/// The index of the entry whose key equals `lid`, or -1.
pub open spec fn del_index(s: Seq<DeletionEntry>, lid: Seq<u8>) -> int
    decreases s.len(),
{
    if s.len() == 0 {
        -1
    } else if s[0].id@ == lid {
        0
    } else {
        let r = del_index(s.drop_first(), lid);
        if r == -1 {
            -1
        } else {
            r + 1
        }
    }
}

pub proof fn lemma_del_index(s: Seq<DeletionEntry>, lid: Seq<u8>)
    ensures
        -1 <= del_index(s, lid) < s.len(),
        del_index(s, lid) == -1 ==> forall|j: int|
            0 <= j < s.len() ==> (#[trigger] s[j]).id@ != lid,
        del_index(s, lid) >= 0 ==> s[del_index(s, lid)].id@ == lid && forall|j: int|
            0 <= j < del_index(s, lid) ==> (#[trigger] s[j]).id@ != lid,
    decreases s.len(),
{
    if s.len() > 0 {
        if s[0].id@ != lid {
            let t = s.drop_first();
            lemma_del_index(t, lid);
            let f = del_index(s, lid);
            if del_index(t, lid) == -1 {
                assert forall|j: int| 0 <= j < s.len() implies (#[trigger] s[j]).id@ != lid by {
                    if j >= 1 {
                        assert(t[j - 1] == s[j]);
                        assert(t[j - 1].id@ != lid);
                    }
                }
            } else {
                assert(f == del_index(t, lid) + 1);
                assert(t[f - 1] == s[f]);
                assert forall|j: int| 0 <= j < f implies (#[trigger] s[j]).id@ != lid by {
                    if j >= 1 {
                        assert(t[j - 1] == s[j]);
                        assert(t[j - 1].id@ != lid);
                    }
                }
            }
        }
    }
}

/// The kind set deleted under an id (0 when the id was not deleted).
pub open spec fn flags_of(d: Seq<DeletionEntry>, lid: Seq<u8>) -> u64 {
    let i = del_index(d, lid);
    if i >= 0 {
        d[i].flags
    } else {
        0
    }
}

/// A raw id hits the deletion map with an intersecting kind set.
pub open spec fn id_hits(d: Seq<DeletionEntry>, raw: Seq<u8>, mask: u64) -> bool {
    flags_of(d, lower(raw)) & mask != 0
}

impl DeletionMap {
    /// An empty map.
    pub fn new() -> (r: Self)
        ensures
            r.entries@.len() == 0,
    {
        DeletionMap { entries: Vec::new() }
    }

    /// Whether `raw` (any case) was deleted with a kind in `mask`.
    pub fn hits(&self, raw: &Vec<u8>, mask: u64) -> (r: bool)
        ensures
            r == id_hits(self.entries@, raw@, mask),
    {
        let lid = to_lowercase(raw);
        let mut i: usize = 0;
        while i < self.entries.len()
            invariant
                lid@ == lower(raw@),
                i <= self.entries@.len(),
                forall|j: int| 0 <= j < i ==> (#[trigger] self.entries@[j]).id@ != lid@,
            decreases self.entries@.len() - i,
        {
            if bytes_eq(&self.entries[i].id, &lid) {
                proof {
                    lemma_del_index(self.entries@, lid@);
                    let f = del_index(self.entries@, lid@);
                    if f > i {
                        assert(self.entries@[i as int].id@ != lid@);
                    }
                    if 0 <= f < i {
                        assert(self.entries@[f].id@ != lid@);
                    }
                    if f == -1 {
                        assert(self.entries@[i as int].id@ != lid@);
                    }
                }
                proof {
                    assert(del_index(self.entries@, lid@) == i as int);
                    assert(flags_of(self.entries@, lid@) == self.entries@[i as int].flags);
                }
                return self.entries[i].flags & mask != 0;
            }
            i = i + 1;
        }
        proof {
            lemma_del_index(self.entries@, lid@);
            if del_index(self.entries@, lid@) >= 0 {
                assert(self.entries@[del_index(self.entries@, lid@)].id@ == lid@);
            }
            assert(flags_of(self.entries@, lid@) == 0);
            assert(0u64 & mask == 0) by (bit_vector);
        }
        false
    }

    /// Adds `mask` to the kind set stored under the lowercased id `lid`.
    pub fn add(&mut self, lid: Vec<u8>, mask: u64)
        ensures
            final (self).entries@.len() >= old(self).entries@.len(),
            flags_of(final (self).entries@, lid@) == flags_of(old(self).entries@, lid@) | mask,
            forall|other: Seq<u8>|
                other != lid@ ==> flags_of(final (self).entries@, other) == flags_of(
                    old(self).entries@,
                    other,
                ),
            no_empty_keys(old(self).entries@) && lid@.len() != 0 ==> no_empty_keys(
                final (self).entries@,
            ),
    {
        let ghost s0 = self.entries@;
        let mut i: usize = 0;
        while i < self.entries.len()
            invariant
                s0 == old(self).entries@,
                self.entries@ == s0,
                i <= s0.len(),
                forall|j: int| 0 <= j < i ==> (#[trigger] s0[j]).id@ != lid@,
            decreases s0.len() - i,
        {
            if bytes_eq(&self.entries[i].id, &lid) {
                proof {
                    lemma_del_index(s0, lid@);
                    let f = del_index(s0, lid@);
                    if f > i {
                        assert(s0[i as int].id@ != lid@);
                    }
                    if 0 <= f < i {
                        assert(s0[f].id@ != lid@);
                    }
                    if f == -1 {
                        assert(s0[i as int].id@ != lid@);
                    }
                }
                proof {
                    assert(del_index(s0, lid@) == i as int);
                    assert(s0[i as int].id@ == lid@);
                    assert(del_index(s0, s0[i as int].id@) == i as int);
                }
                let flags = self.entries[i].flags;
                let mut entry = self.entries.remove(i);
                entry.flags = flags | mask;
                self.entries.insert(i, entry);
                proof {
                    assert(self.entries@ =~= s0.update(
                        i as int,
                        DeletionEntry { id: s0[i as int].id, flags: (s0[i as int].flags | mask) as u64 },
                    ));
                    lemma_flags_of_update(s0, i as int, (s0[i as int].flags | mask) as u64, lid@);
                    assert forall|other: Seq<u8>|
                        other != lid@ implies flags_of(self.entries@, other) == flags_of(
                        s0,
                        other,
                    ) by {
                        lemma_flags_of_update(
                            s0,
                            i as int,
                            (s0[i as int].flags | mask) as u64,
                            other,
                        );
                    }
                }
                return ;
            }
            i = i + 1;
        }
        proof {
            lemma_del_index(s0, lid@);
            if del_index(s0, lid@) >= 0 {
                assert(s0[del_index(s0, lid@)].id@ == lid@);
            }
        }
        let ghost lidv = lid@;
        self.entries.push(DeletionEntry { id: lid, flags: mask });
        proof {
            let e = self.entries@[s0.len() as int];
            assert(e.id@ == lidv);
            lemma_del_index(s0, lidv);
            if del_index(s0, lidv) >= 0 {
                assert(s0[del_index(s0, lidv)].id@ == lidv);
            }
            lemma_flags_of_push(s0, e, lidv);
            assert(flags_of(s0, lidv) == 0);
            assert(forall|m: u64| 0u64 | m == m) by (bit_vector);
            assert forall|other: Seq<u8>| other != lidv implies flags_of(self.entries@, other)
                == flags_of(s0, other) by {
                lemma_flags_of_push(s0, e, other);
            }
        }
    }
}

/// Updating the flags of entry `i` changes no key's position and only the
/// kind set stored under that entry's id.
pub proof fn lemma_flags_of_update(s: Seq<DeletionEntry>, i: int, nf: u64, lid: Seq<u8>)
    requires
        0 <= i < s.len(),
        del_index(s, s[i].id@) == i,
    ensures
        flags_of(s.update(i, DeletionEntry { id: s[i].id, flags: nf }), lid) == if lid == s[i].id@ {
            nf
        } else {
            flags_of(s, lid)
        },
{
    let t = s.update(i, DeletionEntry { id: s[i].id, flags: nf });
    assert forall|j: int| 0 <= j < s.len() implies (#[trigger] s[j]).id@ == t[j].id@ by {}
    lemma_del_index_same_keys(s, t, lid);
    lemma_del_index(s, lid);
    if lid == s[i].id@ {
        assert(del_index(t, lid) == i);
    } else {
        let f = del_index(s, lid);
        if f >= 0 {
            assert(s[f].id@ == lid);
            assert(f != i);
            assert(t[f] == s[f]);
        }
    }
}

/// Two maps whose entries carry the same keys position by position index
/// identically.
pub proof fn lemma_del_index_same_keys(s: Seq<DeletionEntry>, t: Seq<DeletionEntry>, lid: Seq<u8>)
    requires
        s.len() == t.len(),
        forall|j: int| 0 <= j < s.len() ==> (#[trigger] s[j]).id@ == t[j].id@,
    ensures
        del_index(s, lid) == del_index(t, lid),
    decreases s.len(),
{
    if s.len() > 0 {
        assert(s[0].id@ == t[0].id@);
        assert forall|j: int| 0 <= j < s.len() - 1 implies (#[trigger] s.drop_first()[j]).id@
            == t.drop_first()[j].id@ by {
            assert(s.drop_first()[j] == s[j + 1]);
            assert(t.drop_first()[j] == t[j + 1]);
        }
        lemma_del_index_same_keys(s.drop_first(), t.drop_first(), lid);
    }
}

/// Appending an entry with a fresh key installs its set under its key and
/// leaves every other key's set unchanged.
pub proof fn lemma_flags_of_push(s: Seq<DeletionEntry>, e: DeletionEntry, lid: Seq<u8>)
    requires
        del_index(s, e.id@) == -1,
    ensures
        flags_of(s.push(e), lid) == if lid == e.id@ {
            e.flags
        } else {
            flags_of(s, lid)
        },
    decreases s.len(),
{
    lemma_del_index_push_aux(s, e, lid);
    lemma_del_index(s, lid);
    lemma_del_index(s.push(e), lid);
    if lid == e.id@ {
        assert(del_index(s.push(e), lid) == s.len());
        assert(s.push(e)[s.len() as int] == e);
    } else {
        let f = del_index(s, lid);
        if f >= 0 {
            assert(s.push(e)[f] == s[f]);
        }
    }
}

/// How `del_index` behaves across a push.
pub proof fn lemma_del_index_push_aux(s: Seq<DeletionEntry>, e: DeletionEntry, lid: Seq<u8>)
    ensures
        del_index(s, lid) >= 0 ==> del_index(s.push(e), lid) == del_index(s, lid),
        del_index(s, lid) == -1 && lid == e.id@ ==> del_index(s.push(e), lid) == s.len(),
        del_index(s, lid) == -1 && lid != e.id@ ==> del_index(s.push(e), lid) == -1,
{
    lemma_del_index(s, lid);
    lemma_del_index(s.push(e), lid);
    let f0 = del_index(s, lid);
    let f = del_index(s.push(e), lid);
    if f0 >= 0 {
        assert(s.push(e)[f0] == s[f0]);
        assert(s.push(e)[f0].id@ == lid);
        if f > f0 {
            assert(s.push(e)[f0].id@ != lid);
        }
        if 0 <= f < f0 {
            assert(s.push(e)[f] == s[f]);
            assert(s[f].id@ != lid);
        }
        if f == -1 {
            assert(s.push(e)[f0].id@ != lid);
        }
    } else {
        if lid == e.id@ {
            assert(s.push(e)[s.len() as int] == e);
            if f == -1 {
                assert(s.push(e)[s.len() as int].id@ != lid);
            }
            if 0 <= f < s.len() {
                assert(s.push(e)[f] == s[f]);
                assert(s[f].id@ != lid);
                assert(s.push(e)[f].id@ == lid);
            }
        } else {
            if f >= 0 {
                assert(s.push(e)[f].id@ == lid);
                if f < s.len() {
                    assert(s.push(e)[f] == s[f]);
                    assert(s[f].id@ != lid);
                } else {
                    assert(s.push(e)[f] == e);
                }
            }
        }
    }
}

} // verus!


verus! {

/// The entries of `s` whose id was not deleted with a kind in `mask`, in
/// order.
pub open spec fn kept_ids(s: Seq<Vec<u8>>, d: Seq<DeletionEntry>, mask: u64) -> Seq<Vec<u8>>
    decreases s.len(),
{
    if s.len() == 0 {
        Seq::empty()
    } else {
        let rest = kept_ids(s.drop_last(), d, mask);
        if !id_hits(d, s.last()@, mask) {
            rest.push(s.last())
        } else {
            rest
        }
    }
}

/// Every kept entry is clean.
pub proof fn lemma_kept_ids_clean(s: Seq<Vec<u8>>, d: Seq<DeletionEntry>, mask: u64)
    ensures
        kept_ids(s, d, mask).len() <= s.len(),
        forall|i: int|
            0 <= i < kept_ids(s, d, mask).len() ==> !id_hits(
                d,
                (#[trigger] kept_ids(s, d, mask)[i])@,
                mask,
            ),
    decreases s.len(),
{
    if s.len() > 0 {
        lemma_kept_ids_clean(s.drop_last(), d, mask);
        let rest = kept_ids(s.drop_last(), d, mask);
        let whole = kept_ids(s, d, mask);
        assert forall|i: int| 0 <= i < whole.len() implies !id_hits(
            d,
            (#[trigger] whole[i])@,
            mask,
        ) by {
            if i < rest.len() {
                assert(whole[i] == rest[i]);
            }
        }
    }
}

/// The entries of `s` whose id was not deleted with a kind in `mask`, in
/// order.
pub open spec fn kept_inventory(s: Seq<crate::records::InventoryItem>, d: Seq<DeletionEntry>, mask: u64) -> Seq<crate::records::InventoryItem>
    decreases s.len(),
{
    if s.len() == 0 {
        Seq::empty()
    } else {
        let rest = kept_inventory(s.drop_last(), d, mask);
        if !id_hits(d, s.last().id@, mask) {
            rest.push(s.last())
        } else {
            rest
        }
    }
}

/// Every kept entry is clean.
pub proof fn lemma_kept_inventory_clean(s: Seq<crate::records::InventoryItem>, d: Seq<DeletionEntry>, mask: u64)
    ensures
        kept_inventory(s, d, mask).len() <= s.len(),
        forall|i: int|
            0 <= i < kept_inventory(s, d, mask).len() ==> !id_hits(
                d,
                (#[trigger] kept_inventory(s, d, mask)[i]).id@,
                mask,
            ),
    decreases s.len(),
{
    if s.len() > 0 {
        lemma_kept_inventory_clean(s.drop_last(), d, mask);
        let rest = kept_inventory(s.drop_last(), d, mask);
        let whole = kept_inventory(s, d, mask);
        assert forall|i: int| 0 <= i < whole.len() implies !id_hits(
            d,
            (#[trigger] whole[i]).id@,
            mask,
        ) by {
            if i < rest.len() {
                assert(whole[i] == rest[i]);
            }
        }
    }
}

/// The entries of `s` whose id was not deleted with a kind in `mask`, in
/// order.
pub open spec fn kept_sounds(s: Seq<crate::records::RegionSound>, d: Seq<DeletionEntry>, mask: u64) -> Seq<crate::records::RegionSound>
    decreases s.len(),
{
    if s.len() == 0 {
        Seq::empty()
    } else {
        let rest = kept_sounds(s.drop_last(), d, mask);
        if !id_hits(d, s.last().sound@, mask) {
            rest.push(s.last())
        } else {
            rest
        }
    }
}

/// Every kept entry is clean.
pub proof fn lemma_kept_sounds_clean(s: Seq<crate::records::RegionSound>, d: Seq<DeletionEntry>, mask: u64)
    ensures
        kept_sounds(s, d, mask).len() <= s.len(),
        forall|i: int|
            0 <= i < kept_sounds(s, d, mask).len() ==> !id_hits(
                d,
                (#[trigger] kept_sounds(s, d, mask)[i]).sound@,
                mask,
            ),
    decreases s.len(),
{
    if s.len() > 0 {
        lemma_kept_sounds_clean(s.drop_last(), d, mask);
        let rest = kept_sounds(s.drop_last(), d, mask);
        let whole = kept_sounds(s, d, mask);
        assert forall|i: int| 0 <= i < whole.len() implies !id_hits(
            d,
            (#[trigger] whole[i]).sound@,
            mask,
        ) by {
            if i < rest.len() {
                assert(whole[i] == rest[i]);
            }
        }
    }
}

/// The entries of `s` whose id was not deleted with a kind in `mask`, in
/// order.
pub open spec fn kept_leveled(s: Seq<crate::records::LeveledEntry>, d: Seq<DeletionEntry>, mask: u64) -> Seq<crate::records::LeveledEntry>
    decreases s.len(),
{
    if s.len() == 0 {
        Seq::empty()
    } else {
        let rest = kept_leveled(s.drop_last(), d, mask);
        if !id_hits(d, s.last().id@, mask) {
            rest.push(s.last())
        } else {
            rest
        }
    }
}

/// Every kept entry is clean.
pub proof fn lemma_kept_leveled_clean(s: Seq<crate::records::LeveledEntry>, d: Seq<DeletionEntry>, mask: u64)
    ensures
        kept_leveled(s, d, mask).len() <= s.len(),
        forall|i: int|
            0 <= i < kept_leveled(s, d, mask).len() ==> !id_hits(
                d,
                (#[trigger] kept_leveled(s, d, mask)[i]).id@,
                mask,
            ),
    decreases s.len(),
{
    if s.len() > 0 {
        lemma_kept_leveled_clean(s.drop_last(), d, mask);
        let rest = kept_leveled(s.drop_last(), d, mask);
        let whole = kept_leveled(s, d, mask);
        assert forall|i: int| 0 <= i < whole.len() implies !id_hits(
            d,
            (#[trigger] whole[i]).id@,
            mask,
        ) by {
            if i < rest.len() {
                assert(whole[i] == rest[i]);
            }
        }
    }
}

} // verus!

verus! {

/// An id field after cleaning: cleared when its id was deleted with a kind
/// in `mask`.
pub open spec fn cleaned_id(s: Seq<u8>, d: Seq<DeletionEntry>, mask: u64) -> Seq<u8> {
    if id_hits(d, s, mask) {
        Seq::empty()
    } else {
        s
    }
}

/// An optional id field after cleaning.
pub open spec fn cleaned_opt_id(s: Option<Seq<u8>>, d: Seq<DeletionEntry>, mask: u64) -> Option<
    Seq<u8>,
> {
    match s {
        Some(v) => if id_hits(d, v, mask) {
            None
        } else {
            Some(v)
        },
        None => None,
    }
}

/// Every key of the map is a nonempty id.
pub open spec fn no_empty_keys(d: Seq<DeletionEntry>) -> bool {
    forall|j: int| 0 <= j < d.len() ==> (#[trigger] d[j]).id@.len() != 0
}

/// The empty id never hits a map without empty keys.
pub proof fn lemma_empty_id_misses(d: Seq<DeletionEntry>, mask: u64)
    requires
        no_empty_keys(d),
    ensures
        !id_hits(d, Seq::<u8>::empty(), mask),
{
    assert(lower(Seq::<u8>::empty()) =~= Seq::<u8>::empty());
    lemma_del_index(d, Seq::<u8>::empty());
    if del_index(d, Seq::<u8>::empty()) >= 0 {
        assert(d[del_index(d, Seq::<u8>::empty())].id@ == Seq::<u8>::empty());
    }
    assert(flags_of(d, lower(Seq::<u8>::empty())) == 0);
    assert(0u64 & mask == 0) by (bit_vector);
}

/// A cleaned id field no longer hits the map.
pub proof fn lemma_cleaned_id_clean(s: Seq<u8>, d: Seq<DeletionEntry>, mask: u64)
    requires
        no_empty_keys(d),
    ensures
        !id_hits(d, cleaned_id(s, d, mask), mask),
{
    if id_hits(d, s, mask) {
        lemma_empty_id_misses(d, mask);
    }
}

/// Clears an id field whose id was deleted with a kind in `mask`.
pub fn clean_id_field(v: &mut Vec<u8>, map: &DeletionMap, mask: u64)
    ensures
        final (v)@ == cleaned_id(old(v)@, map.entries@, mask),
{
    if map.hits(v, mask) {
        v.clear();
        proof {
            assert(final (v)@ =~= Seq::<u8>::empty());
        }
    }
}

/// The view of an optional id field.
pub open spec fn opt_id_view(o: Option<Vec<u8>>) -> Option<Seq<u8>> {
    match o {
        Some(x) => Some(x@),
        None => None,
    }
}

/// Clears an optional id field whose id was deleted with a kind in `mask`.
pub fn clean_opt_id_field(v: &mut Option<Vec<u8>>, map: &DeletionMap, mask: u64)
    ensures
        opt_id_view(*final (v)) == cleaned_opt_id(opt_id_view(*old(v)), map.entries@, mask),
{
    let take_it = match &*v {
        Some(s) => map.hits(s, mask),
        None => false,
    };
    if take_it {
        *v = None;
    }
}

/// How one AI package cleans: escort, follow and activate targets against
/// the physical class, escort and follow cells against deleted cells.
pub open spec fn ai_cleaned(o: crate::records::AiPackage, n: crate::records::AiPackage, d: Seq<
    DeletionEntry,
>) -> bool {
    match o {
        crate::records::AiPackage::Travel { .. } => n == o,
        crate::records::AiPackage::Wander { .. } => n == o,
        crate::records::AiPackage::Escort { target: t1, cell: c1, payload: p1 } => n
            matches crate::records::AiPackage::Escort { target: t2, cell: c2, payload: p2 }
            && t2@ == cleaned_id(t1@, d, FLAG_PHYSICAL) && c2@ == cleaned_id(c1@, d, FLAG_CELL)
            && p2 == p1,
        crate::records::AiPackage::Follow { target: t1, cell: c1, payload: p1 } => n
            matches crate::records::AiPackage::Follow { target: t2, cell: c2, payload: p2 }
            && t2@ == cleaned_id(t1@, d, FLAG_PHYSICAL) && c2@ == cleaned_id(c1@, d, FLAG_CELL)
            && p2 == p1,
        crate::records::AiPackage::Activate { target: t1, payload: p1 } => n
            matches crate::records::AiPackage::Activate { target: t2, payload: p2 } && t2@
            == cleaned_id(t1@, d, FLAG_PHYSICAL) && p2 == p1,
    }
}

/// Elementwise cleaning of an AI package list.
pub open spec fn ai_list_cleaned(o: Seq<crate::records::AiPackage>, n: Seq<
    crate::records::AiPackage,
>, d: Seq<DeletionEntry>) -> bool {
    n.len() == o.len() && forall|k: int| 0 <= k < o.len() ==> ai_cleaned(o[k], #[trigger] n[k], d)
}

/// Elementwise cleaning of a travel-destination list: each destination's
/// cell is cleared when that cell was deleted.
pub open spec fn td_list_cleaned(o: Seq<crate::records::TravelDestination>, n: Seq<
    crate::records::TravelDestination,
>, d: Seq<DeletionEntry>) -> bool {
    n.len() == o.len() && forall|k: int|
        0 <= k < o.len() ==> (#[trigger] n[k]).cell@ == cleaned_id(o[k].cell@, d, FLAG_CELL)
            && n[k].payload == o[k].payload
}

/// Elementwise cleaning of a biped-object list: both body parts against the
/// physical class.
pub open spec fn biped_list_cleaned(o: Seq<crate::records::BipedObject>, n: Seq<
    crate::records::BipedObject,
>, d: Seq<DeletionEntry>) -> bool {
    n.len() == o.len() && forall|k: int|
        0 <= k < o.len() ==> (#[trigger] n[k]).male_bodypart@ == cleaned_id(
            o[k].male_bodypart@,
            d,
            FLAG_PHYSICAL,
        ) && n[k].female_bodypart@ == cleaned_id(o[k].female_bodypart@, d, FLAG_PHYSICAL)
            && n[k].payload == o[k].payload
}

/// Drops list entries whose id was deleted with a kind in `mask`.
pub fn retain_ids(v: &mut Vec<Vec<u8>>, map: &DeletionMap, mask: u64)
    ensures
        final (v)@ == kept_ids(old(v)@, map.entries@, mask),
{
    let ghost s0 = v@;
    let mut out: Vec<Vec<u8>> = Vec::new();
    let total = v.len();
    let mut i: usize = 0;
    while v.len() > 0
        invariant
            s0.len() == total,
            i <= s0.len(),
            v@ =~= s0.skip(i as int),
            out@ == kept_ids(s0.take(i as int), map.entries@, mask),
        decreases v@.len(),
    {
        let x = v.remove(0);
        proof {
            assert(x == s0[i as int]);
            assert(s0.take(i as int + 1).drop_last() =~= s0.take(i as int));
            assert(s0.take(i as int + 1).last() == s0[i as int]);
            assert(s0.skip(i as int).drop_first() =~= s0.skip(i as int + 1));
        }
        if !map.hits(&x, mask) {
            out.push(x);
        }
        i = i + 1;
    }
    proof {
        assert(s0.take(i as int) =~= s0);
    }
    *v = out;
}

/// Drops inventory entries whose id was deleted with a kind in `mask`.
pub fn retain_inventory(v: &mut Vec<crate::records::InventoryItem>, map: &DeletionMap, mask: u64)
    ensures
        final (v)@ == kept_inventory(old(v)@, map.entries@, mask),
{
    let ghost s0 = v@;
    let mut out: Vec<crate::records::InventoryItem> = Vec::new();
    let total = v.len();
    let mut i: usize = 0;
    while v.len() > 0
        invariant
            s0.len() == total,
            i <= s0.len(),
            v@ =~= s0.skip(i as int),
            out@ == kept_inventory(s0.take(i as int), map.entries@, mask),
        decreases v@.len(),
    {
        let x = v.remove(0);
        proof {
            assert(x == s0[i as int]);
            assert(s0.take(i as int + 1).drop_last() =~= s0.take(i as int));
            assert(s0.take(i as int + 1).last() == s0[i as int]);
            assert(s0.skip(i as int).drop_first() =~= s0.skip(i as int + 1));
        }
        if !map.hits(&x.id, mask) {
            out.push(x);
        }
        i = i + 1;
    }
    proof {
        assert(s0.take(i as int) =~= s0);
    }
    *v = out;
}

/// Drops region sounds whose sound was deleted with a kind in `mask`.
pub fn retain_sounds(v: &mut Vec<crate::records::RegionSound>, map: &DeletionMap, mask: u64)
    ensures
        final (v)@ == kept_sounds(old(v)@, map.entries@, mask),
{
    let ghost s0 = v@;
    let mut out: Vec<crate::records::RegionSound> = Vec::new();
    let total = v.len();
    let mut i: usize = 0;
    while v.len() > 0
        invariant
            s0.len() == total,
            i <= s0.len(),
            v@ =~= s0.skip(i as int),
            out@ == kept_sounds(s0.take(i as int), map.entries@, mask),
        decreases v@.len(),
    {
        let x = v.remove(0);
        proof {
            assert(x == s0[i as int]);
            assert(s0.take(i as int + 1).drop_last() =~= s0.take(i as int));
            assert(s0.take(i as int + 1).last() == s0[i as int]);
            assert(s0.skip(i as int).drop_first() =~= s0.skip(i as int + 1));
        }
        if !map.hits(&x.sound, mask) {
            out.push(x);
        }
        i = i + 1;
    }
    proof {
        assert(s0.take(i as int) =~= s0);
    }
    *v = out;
}

/// Drops leveled-list entries whose id was deleted with a kind in `mask`.
pub fn retain_leveled(v: &mut Vec<crate::records::LeveledEntry>, map: &DeletionMap, mask: u64)
    ensures
        final (v)@ == kept_leveled(old(v)@, map.entries@, mask),
{
    let ghost s0 = v@;
    let mut out: Vec<crate::records::LeveledEntry> = Vec::new();
    let total = v.len();
    let mut i: usize = 0;
    while v.len() > 0
        invariant
            s0.len() == total,
            i <= s0.len(),
            v@ =~= s0.skip(i as int),
            out@ == kept_leveled(s0.take(i as int), map.entries@, mask),
        decreases v@.len(),
    {
        let x = v.remove(0);
        proof {
            assert(x == s0[i as int]);
            assert(s0.take(i as int + 1).drop_last() =~= s0.take(i as int));
            assert(s0.take(i as int + 1).last() == s0[i as int]);
            assert(s0.skip(i as int).drop_first() =~= s0.skip(i as int + 1));
        }
        if !map.hits(&x.id, mask) {
            out.push(x);
        }
        i = i + 1;
    }
    proof {
        assert(s0.take(i as int) =~= s0);
    }
    *v = out;
}

/// Cleans an AI package list in place.
pub fn clean_ai_packages(v: &mut Vec<crate::records::AiPackage>, map: &DeletionMap)
    ensures
        ai_list_cleaned(old(v)@, final (v)@, map.entries@),
{
    let ghost s0 = v@;
    let n = v.len();
    let mut i: usize = 0;
    while i < n
        invariant
            n == s0.len(),
            i <= n,
            v@.len() == n,
            forall|k: int| i <= k < n ==> v@[k] == s0[k],
            forall|k: int| 0 <= k < i ==> ai_cleaned(s0[k], #[trigger] v@[k], map.entries@),
        decreases n - i,
    {
        let ghost pre = v@;
        let p = v.remove(i);
        let cleaned = match p {
            crate::records::AiPackage::Escort { mut target, mut cell, payload } => {
                clean_id_field(&mut target, map, FLAG_PHYSICAL);
                clean_id_field(&mut cell, map, FLAG_CELL);
                crate::records::AiPackage::Escort { target, cell, payload }
            },
            crate::records::AiPackage::Follow { mut target, mut cell, payload } => {
                clean_id_field(&mut target, map, FLAG_PHYSICAL);
                clean_id_field(&mut cell, map, FLAG_CELL);
                crate::records::AiPackage::Follow { target, cell, payload }
            },
            crate::records::AiPackage::Activate { mut target, payload } => {
                clean_id_field(&mut target, map, FLAG_PHYSICAL);
                crate::records::AiPackage::Activate { target, payload }
            },
            other => other,
        };
        v.insert(i, cleaned);
        proof {
            assert(v@ =~= pre.update(i as int, v@[i as int]));
            assert(ai_cleaned(s0[i as int], v@[i as int], map.entries@));
        }
        i = i + 1;
    }
}

/// Cleans a travel-destination list in place.
pub fn clean_travel_destinations(v: &mut Vec<crate::records::TravelDestination>, map: &DeletionMap)
    ensures
        td_list_cleaned(old(v)@, final (v)@, map.entries@),
{
    let ghost s0 = v@;
    let n = v.len();
    let mut i: usize = 0;
    while i < n
        invariant
            n == s0.len(),
            i <= n,
            v@.len() == n,
            forall|k: int| i <= k < n ==> v@[k] == s0[k],
            forall|k: int|
                0 <= k < i ==> (#[trigger] v@[k]).cell@ == cleaned_id(
                    s0[k].cell@,
                    map.entries@,
                    FLAG_CELL,
                ) && v@[k].payload == s0[k].payload,
        decreases n - i,
    {
        let ghost pre = v@;
        let mut td = v.remove(i);
        clean_id_field(&mut td.cell, map, FLAG_CELL);
        v.insert(i, td);
        proof {
            assert(v@ =~= pre.update(i as int, v@[i as int]));
        }
        i = i + 1;
    }
}

/// Cleans a biped-object list in place.
pub fn clean_biped_objects(v: &mut Vec<crate::records::BipedObject>, map: &DeletionMap)
    ensures
        biped_list_cleaned(old(v)@, final (v)@, map.entries@),
{
    let ghost s0 = v@;
    let n = v.len();
    let mut i: usize = 0;
    while i < n
        invariant
            n == s0.len(),
            i <= n,
            v@.len() == n,
            forall|k: int| i <= k < n ==> v@[k] == s0[k],
            forall|k: int|
                0 <= k < i ==> (#[trigger] v@[k]).male_bodypart@ == cleaned_id(
                    s0[k].male_bodypart@,
                    map.entries@,
                    FLAG_PHYSICAL,
                ) && v@[k].female_bodypart@ == cleaned_id(
                    s0[k].female_bodypart@,
                    map.entries@,
                    FLAG_PHYSICAL,
                ) && v@[k].payload == s0[k].payload,
        decreases n - i,
    {
        let ghost pre = v@;
        let mut b = v.remove(i);
        clean_id_field(&mut b.male_bodypart, map, FLAG_PHYSICAL);
        clean_id_field(&mut b.female_bodypart, map, FLAG_PHYSICAL);
        v.insert(i, b);
        proof {
            assert(v@ =~= pre.update(i as int, v@[i as int]));
        }
        i = i + 1;
    }
}

} // verus!

verus! {

/// How each record kind cleans: the per-kind field-to-mask pairs.
pub open spec fn body_cleaned(o: ObjectBody, n: ObjectBody, d: Seq<DeletionEntry>) -> bool {
    match o {
        ObjectBody::Race { spells: x0 } => n matches ObjectBody::Race { spells: y0 }
            && y0@ == kept_ids(x0@, d, FLAG_SPELL),
        ObjectBody::SoundGen { creature: x0, sound: x1 } => n matches ObjectBody::SoundGen { creature: y0, sound: y1 }
            && y0@ == cleaned_id(x0@, d, FLAG_PHYSICAL) && y1@ == cleaned_id(x1@, d, FLAG_SOUND),
        ObjectBody::MagicEffect { bolt_sound: x0, cast_sound: x1, hit_sound: x2, area_sound: x3, cast_visual: x4, bolt_visual: x5, hit_visual: x6, area_visual: x7 } => n matches ObjectBody::MagicEffect { bolt_sound: y0, cast_sound: y1, hit_sound: y2, area_sound: y3, cast_visual: y4, bolt_visual: y5, hit_visual: y6, area_visual: y7 }
            && y0@ == cleaned_id(x0@, d, FLAG_SOUND) && y1@ == cleaned_id(x1@, d, FLAG_SOUND) && y2@ == cleaned_id(x2@, d, FLAG_SOUND) && y3@ == cleaned_id(x3@, d, FLAG_SOUND) && y4@ == cleaned_id(x4@, d, FLAG_PHYSICAL) && y5@ == cleaned_id(x5@, d, FLAG_PHYSICAL) && y6@ == cleaned_id(x6@, d, FLAG_PHYSICAL) && y7@ == cleaned_id(x7@, d, FLAG_PHYSICAL),
        ObjectBody::Region { sleep_creature: x0, sounds: x1 } => n matches ObjectBody::Region { sleep_creature: y0, sounds: y1 }
            && y0@ == cleaned_id(x0@, d, FLAG_PHYSICAL) && y1@ == kept_sounds(x1@, d, FLAG_SOUND),
        ObjectBody::Birthsign { spells: x0 } => n matches ObjectBody::Birthsign { spells: y0 }
            && y0@ == kept_ids(x0@, d, FLAG_SPELL),
        ObjectBody::StartScript { script: x0 } => n matches ObjectBody::StartScript { script: y0 }
            && y0@ == cleaned_id(x0@, d, FLAG_SCRIPT),
        ObjectBody::Door { script: x0, open_sound: x1, close_sound: x2 } => n matches ObjectBody::Door { script: y0, open_sound: y1, close_sound: y2 }
            && y0@ == cleaned_id(x0@, d, FLAG_SCRIPT) && y1@ == cleaned_id(x1@, d, FLAG_SOUND) && y2@ == cleaned_id(x2@, d, FLAG_SOUND),
        ObjectBody::MiscItem { script: x0 } => n matches ObjectBody::MiscItem { script: y0 }
            && y0@ == cleaned_id(x0@, d, FLAG_SCRIPT),
        ObjectBody::Weapon { script: x0, enchanting: x1 } => n matches ObjectBody::Weapon { script: y0, enchanting: y1 }
            && y0@ == cleaned_id(x0@, d, FLAG_SCRIPT) && y1@ == cleaned_id(x1@, d, FLAG_ENCHANTING),
        ObjectBody::Container { script: x0, inventory: x1 } => n matches ObjectBody::Container { script: y0, inventory: y1 }
            && y0@ == cleaned_id(x0@, d, FLAG_SCRIPT) && y1@ == kept_inventory(x1@, d, FLAG_PHYSICAL),
        ObjectBody::Creature { script: x0, inventory: x1, spells: x2, ai_packages: x3, travel_destinations: x4 } => n matches ObjectBody::Creature { script: y0, inventory: y1, spells: y2, ai_packages: y3, travel_destinations: y4 }
            && y0@ == cleaned_id(x0@, d, FLAG_SCRIPT) && y1@ == kept_inventory(x1@, d, FLAG_PHYSICAL) && y2@ == kept_ids(x2@, d, FLAG_SPELL) && ai_list_cleaned(x3@, y3@, d) && td_list_cleaned(x4@, y4@, d),
        ObjectBody::Light { script: x0, sound: x1 } => n matches ObjectBody::Light { script: y0, sound: y1 }
            && y0@ == cleaned_id(x0@, d, FLAG_SCRIPT) && y1@ == cleaned_id(x1@, d, FLAG_SOUND),
        ObjectBody::Npc { script: x0, inventory: x1, spells: x2, ai_packages: x3, travel_destinations: x4, race: x5, class: x6, faction: x7, head: x8, hair: x9 } => n matches ObjectBody::Npc { script: y0, inventory: y1, spells: y2, ai_packages: y3, travel_destinations: y4, race: y5, class: y6, faction: y7, head: y8, hair: y9 }
            && y0@ == cleaned_id(x0@, d, FLAG_SCRIPT) && y1@ == kept_inventory(x1@, d, FLAG_PHYSICAL) && y2@ == kept_ids(x2@, d, FLAG_SPELL) && ai_list_cleaned(x3@, y3@, d) && td_list_cleaned(x4@, y4@, d) && y5@ == x5@ && y6@ == cleaned_id(x6@, d, FLAG_CLASS) && y7@ == cleaned_id(x7@, d, FLAG_FACTION) && y8@ == cleaned_id(x8@, d, FLAG_PHYSICAL) && y9@ == cleaned_id(x9@, d, FLAG_PHYSICAL),
        ObjectBody::Armor { script: x0, enchanting: x1, biped_objects: x2 } => n matches ObjectBody::Armor { script: y0, enchanting: y1, biped_objects: y2 }
            && y0@ == cleaned_id(x0@, d, FLAG_SCRIPT) && y1@ == cleaned_id(x1@, d, FLAG_ENCHANTING) && biped_list_cleaned(x2@, y2@, d),
        ObjectBody::Clothing { script: x0, enchanting: x1, biped_objects: x2 } => n matches ObjectBody::Clothing { script: y0, enchanting: y1, biped_objects: y2 }
            && y0@ == cleaned_id(x0@, d, FLAG_SCRIPT) && y1@ == cleaned_id(x1@, d, FLAG_ENCHANTING) && biped_list_cleaned(x2@, y2@, d),
        ObjectBody::RepairItem { script: x0 } => n matches ObjectBody::RepairItem { script: y0 }
            && y0@ == cleaned_id(x0@, d, FLAG_SCRIPT),
        ObjectBody::Activator { script: x0 } => n matches ObjectBody::Activator { script: y0 }
            && y0@ == cleaned_id(x0@, d, FLAG_SCRIPT),
        ObjectBody::Apparatus { script: x0 } => n matches ObjectBody::Apparatus { script: y0 }
            && y0@ == cleaned_id(x0@, d, FLAG_SCRIPT),
        ObjectBody::Lockpick { script: x0 } => n matches ObjectBody::Lockpick { script: y0 }
            && y0@ == cleaned_id(x0@, d, FLAG_SCRIPT),
        ObjectBody::Probe { script: x0 } => n matches ObjectBody::Probe { script: y0 }
            && y0@ == cleaned_id(x0@, d, FLAG_SCRIPT),
        ObjectBody::Ingredient { script: x0 } => n matches ObjectBody::Ingredient { script: y0 }
            && y0@ == cleaned_id(x0@, d, FLAG_SCRIPT),
        ObjectBody::Book { script: x0, enchanting: x1 } => n matches ObjectBody::Book { script: y0, enchanting: y1 }
            && y0@ == cleaned_id(x0@, d, FLAG_SCRIPT) && y1@ == cleaned_id(x1@, d, FLAG_ENCHANTING),
        ObjectBody::Alchemy { script: x0 } => n matches ObjectBody::Alchemy { script: y0 }
            && y0@ == cleaned_id(x0@, d, FLAG_SCRIPT),
        ObjectBody::LeveledItem { items: x0 } => n matches ObjectBody::LeveledItem { items: y0 }
            && y0@ == kept_leveled(x0@, d, FLAG_PHYSICAL),
        ObjectBody::LeveledCreature { creatures: x0 } => n matches ObjectBody::LeveledCreature { creatures: y0 }
            && y0@ == kept_leveled(x0@, d, FLAG_PHYSICAL),
        _ => n == o,
    }
}

/// No package field names a deleted id.
pub open spec fn ai_no_dangling(p: crate::records::AiPackage, d: Seq<DeletionEntry>) -> bool {
    match p {
        crate::records::AiPackage::Escort { target, cell, .. } => !id_hits(d, target@, FLAG_PHYSICAL)
            && !id_hits(d, cell@, FLAG_CELL),
        crate::records::AiPackage::Follow { target, cell, .. } => !id_hits(d, target@, FLAG_PHYSICAL)
            && !id_hits(d, cell@, FLAG_CELL),
        crate::records::AiPackage::Activate { target, .. } => !id_hits(d, target@, FLAG_PHYSICAL),
        _ => true,
    }
}

/// No field of the record names a deleted id with an intersecting kind
/// (the actor race field is left alone by design: the construction set
/// crashes when it is cleaned).
pub open spec fn body_no_dangling(n: ObjectBody, d: Seq<DeletionEntry>) -> bool {
    match n {
        ObjectBody::Race { spells: y0 } => (forall|q: int| 0 <= q < y0@.len() ==> !id_hits(d, (#[trigger] y0@[q])@, FLAG_SPELL)),
        ObjectBody::SoundGen { creature: y0, sound: y1 } => !id_hits(d, y0@, FLAG_PHYSICAL) && !id_hits(d, y1@, FLAG_SOUND),
        ObjectBody::MagicEffect { bolt_sound: y0, cast_sound: y1, hit_sound: y2, area_sound: y3, cast_visual: y4, bolt_visual: y5, hit_visual: y6, area_visual: y7 } => !id_hits(d, y0@, FLAG_SOUND) && !id_hits(d, y1@, FLAG_SOUND) && !id_hits(d, y2@, FLAG_SOUND) && !id_hits(d, y3@, FLAG_SOUND) && !id_hits(d, y4@, FLAG_PHYSICAL) && !id_hits(d, y5@, FLAG_PHYSICAL) && !id_hits(d, y6@, FLAG_PHYSICAL) && !id_hits(d, y7@, FLAG_PHYSICAL),
        ObjectBody::Region { sleep_creature: y0, sounds: y1 } => !id_hits(d, y0@, FLAG_PHYSICAL) && (forall|q: int| 0 <= q < y1@.len() ==> !id_hits(d, (#[trigger] y1@[q]).sound@, FLAG_SOUND)),
        ObjectBody::Birthsign { spells: y0 } => (forall|q: int| 0 <= q < y0@.len() ==> !id_hits(d, (#[trigger] y0@[q])@, FLAG_SPELL)),
        ObjectBody::StartScript { script: y0 } => !id_hits(d, y0@, FLAG_SCRIPT),
        ObjectBody::Door { script: y0, open_sound: y1, close_sound: y2 } => !id_hits(d, y0@, FLAG_SCRIPT) && !id_hits(d, y1@, FLAG_SOUND) && !id_hits(d, y2@, FLAG_SOUND),
        ObjectBody::MiscItem { script: y0 } => !id_hits(d, y0@, FLAG_SCRIPT),
        ObjectBody::Weapon { script: y0, enchanting: y1 } => !id_hits(d, y0@, FLAG_SCRIPT) && !id_hits(d, y1@, FLAG_ENCHANTING),
        ObjectBody::Container { script: y0, inventory: y1 } => !id_hits(d, y0@, FLAG_SCRIPT) && (forall|q: int| 0 <= q < y1@.len() ==> !id_hits(d, (#[trigger] y1@[q]).id@, FLAG_PHYSICAL)),
        ObjectBody::Creature { script: y0, inventory: y1, spells: y2, ai_packages: y3, travel_destinations: y4 } => !id_hits(d, y0@, FLAG_SCRIPT) && (forall|q: int| 0 <= q < y1@.len() ==> !id_hits(d, (#[trigger] y1@[q]).id@, FLAG_PHYSICAL)) && (forall|q: int| 0 <= q < y2@.len() ==> !id_hits(d, (#[trigger] y2@[q])@, FLAG_SPELL)) && (forall|q: int| 0 <= q < y3@.len() ==> ai_no_dangling(#[trigger] y3@[q], d)) && (forall|q: int| 0 <= q < y4@.len() ==> !id_hits(d, (#[trigger] y4@[q]).cell@, FLAG_CELL)),
        ObjectBody::Light { script: y0, sound: y1 } => !id_hits(d, y0@, FLAG_SCRIPT) && !id_hits(d, y1@, FLAG_SOUND),
        ObjectBody::Npc { script: y0, inventory: y1, spells: y2, ai_packages: y3, travel_destinations: y4, race: y5, class: y6, faction: y7, head: y8, hair: y9 } => !id_hits(d, y0@, FLAG_SCRIPT) && (forall|q: int| 0 <= q < y1@.len() ==> !id_hits(d, (#[trigger] y1@[q]).id@, FLAG_PHYSICAL)) && (forall|q: int| 0 <= q < y2@.len() ==> !id_hits(d, (#[trigger] y2@[q])@, FLAG_SPELL)) && (forall|q: int| 0 <= q < y3@.len() ==> ai_no_dangling(#[trigger] y3@[q], d)) && (forall|q: int| 0 <= q < y4@.len() ==> !id_hits(d, (#[trigger] y4@[q]).cell@, FLAG_CELL)) && !id_hits(d, y6@, FLAG_CLASS) && !id_hits(d, y7@, FLAG_FACTION) && !id_hits(d, y8@, FLAG_PHYSICAL) && !id_hits(d, y9@, FLAG_PHYSICAL),
        ObjectBody::Armor { script: y0, enchanting: y1, biped_objects: y2 } => !id_hits(d, y0@, FLAG_SCRIPT) && !id_hits(d, y1@, FLAG_ENCHANTING) && (forall|q: int| 0 <= q < y2@.len() ==> !id_hits(d, (#[trigger] y2@[q]).male_bodypart@, FLAG_PHYSICAL) && !id_hits(d, y2@[q].female_bodypart@, FLAG_PHYSICAL)),
        ObjectBody::Clothing { script: y0, enchanting: y1, biped_objects: y2 } => !id_hits(d, y0@, FLAG_SCRIPT) && !id_hits(d, y1@, FLAG_ENCHANTING) && (forall|q: int| 0 <= q < y2@.len() ==> !id_hits(d, (#[trigger] y2@[q]).male_bodypart@, FLAG_PHYSICAL) && !id_hits(d, y2@[q].female_bodypart@, FLAG_PHYSICAL)),
        ObjectBody::RepairItem { script: y0 } => !id_hits(d, y0@, FLAG_SCRIPT),
        ObjectBody::Activator { script: y0 } => !id_hits(d, y0@, FLAG_SCRIPT),
        ObjectBody::Apparatus { script: y0 } => !id_hits(d, y0@, FLAG_SCRIPT),
        ObjectBody::Lockpick { script: y0 } => !id_hits(d, y0@, FLAG_SCRIPT),
        ObjectBody::Probe { script: y0 } => !id_hits(d, y0@, FLAG_SCRIPT),
        ObjectBody::Ingredient { script: y0 } => !id_hits(d, y0@, FLAG_SCRIPT),
        ObjectBody::Book { script: y0, enchanting: y1 } => !id_hits(d, y0@, FLAG_SCRIPT) && !id_hits(d, y1@, FLAG_ENCHANTING),
        ObjectBody::Alchemy { script: y0 } => !id_hits(d, y0@, FLAG_SCRIPT),
        ObjectBody::LeveledItem { items: y0 } => (forall|q: int| 0 <= q < y0@.len() ==> !id_hits(d, (#[trigger] y0@[q]).id@, FLAG_PHYSICAL)),
        ObjectBody::LeveledCreature { creatures: y0 } => (forall|q: int| 0 <= q < y0@.len() ==> !id_hits(d, (#[trigger] y0@[q]).id@, FLAG_PHYSICAL)),
        _ => true,
    }
}

impl crate::records::ObjectRecord {
    /// Cleans every field that refers to a deleted id (see `body_cleaned`).
    pub fn clean_deletions(&mut self, map: &DeletionMap)
        ensures
            final (self).id@ == old(self).id@,
            final (self).deleted == old(self).deleted,
            final (self).ignored == old(self).ignored,
            final (self).payload == old(self).payload,
            body_cleaned(old(self).body, final (self).body, map.entries@),
    {
        match &mut self.body {
            ObjectBody::Race { spells } => {
                retain_ids(spells, map, FLAG_SPELL);
            },
            ObjectBody::SoundGen { creature, sound } => {
                clean_id_field(creature, map, FLAG_PHYSICAL);
                clean_id_field(sound, map, FLAG_SOUND);
            },
            ObjectBody::MagicEffect { bolt_sound, cast_sound, hit_sound, area_sound, cast_visual, bolt_visual, hit_visual, area_visual } => {
                clean_id_field(bolt_sound, map, FLAG_SOUND);
                clean_id_field(cast_sound, map, FLAG_SOUND);
                clean_id_field(hit_sound, map, FLAG_SOUND);
                clean_id_field(area_sound, map, FLAG_SOUND);
                clean_id_field(cast_visual, map, FLAG_PHYSICAL);
                clean_id_field(bolt_visual, map, FLAG_PHYSICAL);
                clean_id_field(hit_visual, map, FLAG_PHYSICAL);
                clean_id_field(area_visual, map, FLAG_PHYSICAL);
            },
            ObjectBody::Region { sleep_creature, sounds } => {
                clean_id_field(sleep_creature, map, FLAG_PHYSICAL);
                retain_sounds(sounds, map, FLAG_SOUND);
            },
            ObjectBody::Birthsign { spells } => {
                retain_ids(spells, map, FLAG_SPELL);
            },
            ObjectBody::StartScript { script } => {
                clean_id_field(script, map, FLAG_SCRIPT);
            },
            ObjectBody::Door { script, open_sound, close_sound } => {
                clean_id_field(script, map, FLAG_SCRIPT);
                clean_id_field(open_sound, map, FLAG_SOUND);
                clean_id_field(close_sound, map, FLAG_SOUND);
            },
            ObjectBody::MiscItem { script } => {
                clean_id_field(script, map, FLAG_SCRIPT);
            },
            ObjectBody::Weapon { script, enchanting } => {
                clean_id_field(script, map, FLAG_SCRIPT);
                clean_id_field(enchanting, map, FLAG_ENCHANTING);
            },
            ObjectBody::Container { script, inventory } => {
                clean_id_field(script, map, FLAG_SCRIPT);
                retain_inventory(inventory, map, FLAG_PHYSICAL);
            },
            ObjectBody::Creature { script, inventory, spells, ai_packages, travel_destinations } => {
                clean_id_field(script, map, FLAG_SCRIPT);
                retain_inventory(inventory, map, FLAG_PHYSICAL);
                retain_ids(spells, map, FLAG_SPELL);
                clean_ai_packages(ai_packages, map);
                clean_travel_destinations(travel_destinations, map);
            },
            ObjectBody::Light { script, sound } => {
                clean_id_field(script, map, FLAG_SCRIPT);
                clean_id_field(sound, map, FLAG_SOUND);
            },
            ObjectBody::Npc { script, inventory, spells, ai_packages, travel_destinations, race: _, class, faction, head, hair } => {
                clean_id_field(script, map, FLAG_SCRIPT);
                retain_inventory(inventory, map, FLAG_PHYSICAL);
                retain_ids(spells, map, FLAG_SPELL);
                clean_ai_packages(ai_packages, map);
                clean_travel_destinations(travel_destinations, map);
                clean_id_field(class, map, FLAG_CLASS);
                clean_id_field(faction, map, FLAG_FACTION);
                clean_id_field(head, map, FLAG_PHYSICAL);
                clean_id_field(hair, map, FLAG_PHYSICAL);
            },
            ObjectBody::Armor { script, enchanting, biped_objects } => {
                clean_id_field(script, map, FLAG_SCRIPT);
                clean_id_field(enchanting, map, FLAG_ENCHANTING);
                clean_biped_objects(biped_objects, map);
            },
            ObjectBody::Clothing { script, enchanting, biped_objects } => {
                clean_id_field(script, map, FLAG_SCRIPT);
                clean_id_field(enchanting, map, FLAG_ENCHANTING);
                clean_biped_objects(biped_objects, map);
            },
            ObjectBody::RepairItem { script } => {
                clean_id_field(script, map, FLAG_SCRIPT);
            },
            ObjectBody::Activator { script } => {
                clean_id_field(script, map, FLAG_SCRIPT);
            },
            ObjectBody::Apparatus { script } => {
                clean_id_field(script, map, FLAG_SCRIPT);
            },
            ObjectBody::Lockpick { script } => {
                clean_id_field(script, map, FLAG_SCRIPT);
            },
            ObjectBody::Probe { script } => {
                clean_id_field(script, map, FLAG_SCRIPT);
            },
            ObjectBody::Ingredient { script } => {
                clean_id_field(script, map, FLAG_SCRIPT);
            },
            ObjectBody::Book { script, enchanting } => {
                clean_id_field(script, map, FLAG_SCRIPT);
                clean_id_field(enchanting, map, FLAG_ENCHANTING);
            },
            ObjectBody::Alchemy { script } => {
                clean_id_field(script, map, FLAG_SCRIPT);
            },
            ObjectBody::LeveledItem { items } => {
                retain_leveled(items, map, FLAG_PHYSICAL);
            },
            ObjectBody::LeveledCreature { creatures } => {
                retain_leveled(creatures, map, FLAG_PHYSICAL);
            },
            _ => {},
        }
    }
}

/// A cleaned AI package list carries no dangling id; the helper lemmas
/// below lift the field-level facts to whole lists. The list arguments are
/// the pre-cleaning values; the conclusions speak of any cleaned result.
pub proof fn lemma_ai_list_clean(o: Seq<crate::records::AiPackage>, d: Seq<DeletionEntry>)
    requires
        no_empty_keys(d),
    ensures
        forall|n: Seq<crate::records::AiPackage>|
            ai_list_cleaned(o, n, d) ==> forall|q: int|
                0 <= q < n.len() ==> ai_no_dangling(#[trigger] n[q], d),
{
    assert forall|n: Seq<crate::records::AiPackage>| ai_list_cleaned(o, n, d) implies forall|
        q: int,
    | 0 <= q < n.len() ==> ai_no_dangling(#[trigger] n[q], d) by {
        assert forall|q: int| 0 <= q < n.len() implies ai_no_dangling(#[trigger] n[q], d) by {
            assert(ai_cleaned(o[q], n[q], d));
            match o[q] {
                crate::records::AiPackage::Escort { target, cell, .. } => {
                    lemma_cleaned_id_clean(target@, d, FLAG_PHYSICAL);
                    lemma_cleaned_id_clean(cell@, d, FLAG_CELL);
                },
                crate::records::AiPackage::Follow { target, cell, .. } => {
                    lemma_cleaned_id_clean(target@, d, FLAG_PHYSICAL);
                    lemma_cleaned_id_clean(cell@, d, FLAG_CELL);
                },
                crate::records::AiPackage::Activate { target, .. } => {
                    lemma_cleaned_id_clean(target@, d, FLAG_PHYSICAL);
                },
                _ => {},
            }
        }
    }
}

/// See `lemma_ai_list_clean`.
pub proof fn lemma_td_list_clean(o: Seq<crate::records::TravelDestination>, d: Seq<DeletionEntry>)
    requires
        no_empty_keys(d),
    ensures
        forall|n: Seq<crate::records::TravelDestination>|
            td_list_cleaned(o, n, d) ==> forall|q: int|
                0 <= q < n.len() ==> !id_hits(d, (#[trigger] n[q]).cell@, FLAG_CELL),
{
    assert forall|n: Seq<crate::records::TravelDestination>| td_list_cleaned(o, n, d) implies forall|
        q: int,
    | 0 <= q < n.len() ==> !id_hits(d, (#[trigger] n[q]).cell@, FLAG_CELL) by {
        assert forall|q: int| 0 <= q < n.len() implies !id_hits(
            d,
            (#[trigger] n[q]).cell@,
            FLAG_CELL,
        ) by {
            lemma_cleaned_id_clean(o[q].cell@, d, FLAG_CELL);
        }
    }
}

/// See `lemma_ai_list_clean`.
pub proof fn lemma_biped_list_clean(o: Seq<crate::records::BipedObject>, d: Seq<DeletionEntry>)
    requires
        no_empty_keys(d),
    ensures
        forall|n: Seq<crate::records::BipedObject>|
            biped_list_cleaned(o, n, d) ==> forall|q: int|
                0 <= q < n.len() ==> !id_hits(d, (#[trigger] n[q]).male_bodypart@, FLAG_PHYSICAL)
                    && !id_hits(d, n[q].female_bodypart@, FLAG_PHYSICAL),
{
    assert forall|n: Seq<crate::records::BipedObject>| biped_list_cleaned(o, n, d) implies forall|
        q: int,
    | 0 <= q < n.len() ==> !id_hits(d, (#[trigger] n[q]).male_bodypart@, FLAG_PHYSICAL)
        && !id_hits(d, n[q].female_bodypart@, FLAG_PHYSICAL) by {
        assert forall|q: int| 0 <= q < n.len() implies !id_hits(
            d,
            (#[trigger] n[q]).male_bodypart@,
            FLAG_PHYSICAL,
        ) && !id_hits(d, n[q].female_bodypart@, FLAG_PHYSICAL) by {
            lemma_cleaned_id_clean(o[q].male_bodypart@, d, FLAG_PHYSICAL);
            lemma_cleaned_id_clean(o[q].female_bodypart@, d, FLAG_PHYSICAL);
        }
    }
}

/// A cleaned record carries no dangling id (the deletion closure for one
/// record).
pub proof fn lemma_body_cleaned_no_dangling(o: ObjectBody, n: ObjectBody, d: Seq<DeletionEntry>)
    requires
        body_cleaned(o, n, d),
        no_empty_keys(d),
    ensures
        body_no_dangling(n, d),
{
    match o {
        ObjectBody::Race { spells: x0 } => {
            lemma_kept_ids_clean(x0@, d, FLAG_SPELL);
        },
        ObjectBody::SoundGen { creature: x0, sound: x1 } => {
            lemma_cleaned_id_clean(x0@, d, FLAG_PHYSICAL);
            lemma_cleaned_id_clean(x1@, d, FLAG_SOUND);
        },
        ObjectBody::MagicEffect { bolt_sound: x0, cast_sound: x1, hit_sound: x2, area_sound: x3, cast_visual: x4, bolt_visual: x5, hit_visual: x6, area_visual: x7 } => {
            lemma_cleaned_id_clean(x0@, d, FLAG_SOUND);
            lemma_cleaned_id_clean(x1@, d, FLAG_SOUND);
            lemma_cleaned_id_clean(x2@, d, FLAG_SOUND);
            lemma_cleaned_id_clean(x3@, d, FLAG_SOUND);
            lemma_cleaned_id_clean(x4@, d, FLAG_PHYSICAL);
            lemma_cleaned_id_clean(x5@, d, FLAG_PHYSICAL);
            lemma_cleaned_id_clean(x6@, d, FLAG_PHYSICAL);
            lemma_cleaned_id_clean(x7@, d, FLAG_PHYSICAL);
        },
        ObjectBody::Region { sleep_creature: x0, sounds: x1 } => {
            lemma_cleaned_id_clean(x0@, d, FLAG_PHYSICAL);
            lemma_kept_sounds_clean(x1@, d, FLAG_SOUND);
        },
        ObjectBody::Birthsign { spells: x0 } => {
            lemma_kept_ids_clean(x0@, d, FLAG_SPELL);
        },
        ObjectBody::StartScript { script: x0 } => {
            lemma_cleaned_id_clean(x0@, d, FLAG_SCRIPT);
        },
        ObjectBody::Door { script: x0, open_sound: x1, close_sound: x2 } => {
            lemma_cleaned_id_clean(x0@, d, FLAG_SCRIPT);
            lemma_cleaned_id_clean(x1@, d, FLAG_SOUND);
            lemma_cleaned_id_clean(x2@, d, FLAG_SOUND);
        },
        ObjectBody::MiscItem { script: x0 } => {
            lemma_cleaned_id_clean(x0@, d, FLAG_SCRIPT);
        },
        ObjectBody::Weapon { script: x0, enchanting: x1 } => {
            lemma_cleaned_id_clean(x0@, d, FLAG_SCRIPT);
            lemma_cleaned_id_clean(x1@, d, FLAG_ENCHANTING);
        },
        ObjectBody::Container { script: x0, inventory: x1 } => {
            lemma_cleaned_id_clean(x0@, d, FLAG_SCRIPT);
            lemma_kept_inventory_clean(x1@, d, FLAG_PHYSICAL);
        },
        ObjectBody::Creature { script: x0, inventory: x1, spells: x2, ai_packages: x3, travel_destinations: x4 } => {
            lemma_cleaned_id_clean(x0@, d, FLAG_SCRIPT);
            lemma_kept_inventory_clean(x1@, d, FLAG_PHYSICAL);
            lemma_kept_ids_clean(x2@, d, FLAG_SPELL);
            lemma_ai_list_clean(x3@, d);
            lemma_td_list_clean(x4@, d);
        },
        ObjectBody::Light { script: x0, sound: x1 } => {
            lemma_cleaned_id_clean(x0@, d, FLAG_SCRIPT);
            lemma_cleaned_id_clean(x1@, d, FLAG_SOUND);
        },
        ObjectBody::Npc { script: x0, inventory: x1, spells: x2, ai_packages: x3, travel_destinations: x4, race: x5, class: x6, faction: x7, head: x8, hair: x9 } => {
            lemma_cleaned_id_clean(x0@, d, FLAG_SCRIPT);
            lemma_kept_inventory_clean(x1@, d, FLAG_PHYSICAL);
            lemma_kept_ids_clean(x2@, d, FLAG_SPELL);
            lemma_ai_list_clean(x3@, d);
            lemma_td_list_clean(x4@, d);
            lemma_cleaned_id_clean(x6@, d, FLAG_CLASS);
            lemma_cleaned_id_clean(x7@, d, FLAG_FACTION);
            lemma_cleaned_id_clean(x8@, d, FLAG_PHYSICAL);
            lemma_cleaned_id_clean(x9@, d, FLAG_PHYSICAL);
        },
        ObjectBody::Armor { script: x0, enchanting: x1, biped_objects: x2 } => {
            lemma_cleaned_id_clean(x0@, d, FLAG_SCRIPT);
            lemma_cleaned_id_clean(x1@, d, FLAG_ENCHANTING);
            lemma_biped_list_clean(x2@, d);
        },
        ObjectBody::Clothing { script: x0, enchanting: x1, biped_objects: x2 } => {
            lemma_cleaned_id_clean(x0@, d, FLAG_SCRIPT);
            lemma_cleaned_id_clean(x1@, d, FLAG_ENCHANTING);
            lemma_biped_list_clean(x2@, d);
        },
        ObjectBody::RepairItem { script: x0 } => {
            lemma_cleaned_id_clean(x0@, d, FLAG_SCRIPT);
        },
        ObjectBody::Activator { script: x0 } => {
            lemma_cleaned_id_clean(x0@, d, FLAG_SCRIPT);
        },
        ObjectBody::Apparatus { script: x0 } => {
            lemma_cleaned_id_clean(x0@, d, FLAG_SCRIPT);
        },
        ObjectBody::Lockpick { script: x0 } => {
            lemma_cleaned_id_clean(x0@, d, FLAG_SCRIPT);
        },
        ObjectBody::Probe { script: x0 } => {
            lemma_cleaned_id_clean(x0@, d, FLAG_SCRIPT);
        },
        ObjectBody::Ingredient { script: x0 } => {
            lemma_cleaned_id_clean(x0@, d, FLAG_SCRIPT);
        },
        ObjectBody::Book { script: x0, enchanting: x1 } => {
            lemma_cleaned_id_clean(x0@, d, FLAG_SCRIPT);
            lemma_cleaned_id_clean(x1@, d, FLAG_ENCHANTING);
        },
        ObjectBody::Alchemy { script: x0 } => {
            lemma_cleaned_id_clean(x0@, d, FLAG_SCRIPT);
        },
        ObjectBody::LeveledItem { items: x0 } => {
            lemma_kept_leveled_clean(x0@, d, FLAG_PHYSICAL);
        },
        ObjectBody::LeveledCreature { creatures: x0 } => {
            lemma_kept_leveled_clean(x0@, d, FLAG_PHYSICAL);
        },
        _ => {},
    }
}

} // verus!

verus! {

/// The references kept by cleanup: every non-local reference, and every
/// local one that is not itself deleted and whose id was not deleted with a
/// physical kind.
pub open spec fn kept_refs(s: Seq<crate::cells::RefEntry>, d: Seq<DeletionEntry>) -> Seq<
    crate::cells::RefEntry,
>
    decreases s.len(),
{
    if s.len() == 0 {
        Seq::empty()
    } else {
        let rest = kept_refs(s.drop_last(), d);
        let x = s.last();
        if x.mast_index != 0 || (!x.deleted && !id_hits(d, x.id@, FLAG_PHYSICAL)) {
            rest.push(x)
        } else {
            rest
        }
    }
}

/// Every kept reference is non-local or clean.
pub proof fn lemma_kept_refs_clean(s: Seq<crate::cells::RefEntry>, d: Seq<DeletionEntry>)
    ensures
        kept_refs(s, d).len() <= s.len(),
        forall|i: int|
            0 <= i < kept_refs(s, d).len() ==> (#[trigger] kept_refs(s, d)[i]).mast_index != 0 || (
            !kept_refs(s, d)[i].deleted && !id_hits(d, kept_refs(s, d)[i].id@, FLAG_PHYSICAL)),
    decreases s.len(),
{
    if s.len() > 0 {
        lemma_kept_refs_clean(s.drop_last(), d);
        let rest = kept_refs(s.drop_last(), d);
        let whole = kept_refs(s, d);
        assert forall|i: int| 0 <= i < whole.len() implies (#[trigger] whole[i]).mast_index != 0
            || (!whole[i].deleted && !id_hits(d, whole[i].id@, FLAG_PHYSICAL)) by {
            if i < rest.len() {
                assert(whole[i] == rest[i]);
            }
        }
    }
}

/// The cell after cleanup: the region cleared when deleted, the reference
/// table filtered (see `kept_refs`), everything else kept.
pub open spec fn cell_deletion_cleaned(o: crate::cells::CellData, n: crate::cells::CellData, d: Seq<
    DeletionEntry,
>) -> bool {
    &&& n.name@ == o.name@
    &&& n.deleted == o.deleted
    &&& n.ignored == o.ignored
    &&& n.is_interior == o.is_interior
    &&& n.grid == o.grid
    &&& n.map_color == o.map_color
    &&& n.water_height_bits == o.water_height_bits
    &&& n.atmosphere_payload == o.atmosphere_payload
    &&& n.data_payload == o.data_payload
    &&& opt_id_view(n.region) == cleaned_opt_id(opt_id_view(o.region), d, FLAG_REGION)
    &&& n.references@ == kept_refs(o.references@, d)
}

/// No surviving part of the cell names a deleted id: its region is intact
/// and every surviving local reference is neither deleted itself nor names
/// a deleted physical object.
pub open spec fn cell_no_dangling(c: crate::cells::CellData, d: Seq<DeletionEntry>) -> bool {
    &&& match c.region {
        Some(r) => !id_hits(d, r@, FLAG_REGION),
        None => true,
    }
    &&& forall|k: int|
        0 <= k < c.references@.len() && (#[trigger] c.references@[k]).mast_index == 0
            ==> !c.references@[k].deleted && !id_hits(d, c.references@[k].id@, FLAG_PHYSICAL)
}

/// A cleaned cell has no dangling part.
pub proof fn lemma_cell_cleaned_no_dangling(
    o: crate::cells::CellData,
    n: crate::cells::CellData,
    d: Seq<DeletionEntry>,
)
    requires
        cell_deletion_cleaned(o, n, d),
        no_empty_keys(d),
    ensures
        cell_no_dangling(n, d),
{
    lemma_kept_refs_clean(o.references@, d);
}

impl crate::cells::CellData {
    /// Clears the region when it was deleted and filters the reference
    /// table (see `cell_deletion_cleaned`).
    pub fn clean_deletions(&mut self, map: &DeletionMap)
        ensures
            cell_deletion_cleaned(*old(self), *final (self), map.entries@),
    {
        let ghost s0 = self.references@;
        let mut out: Vec<crate::cells::RefEntry> = Vec::new();
        let total = self.references.len();
        let mut i: usize = 0;
        while self.references.len() > 0
            invariant
                s0.len() == total,
                i <= s0.len(),
                self.references@ =~= s0.skip(i as int),
                out@ == kept_refs(s0.take(i as int), map.entries@),
                self.name@ == old(self).name@,
                self.deleted == old(self).deleted,
                self.ignored == old(self).ignored,
                self.is_interior == old(self).is_interior,
                self.grid == old(self).grid,
                self.region == old(self).region,
                self.map_color == old(self).map_color,
                self.water_height_bits == old(self).water_height_bits,
                self.atmosphere_payload == old(self).atmosphere_payload,
                self.data_payload == old(self).data_payload,
                s0 == old(self).references@,
            decreases self.references@.len(),
        {
            let x = self.references.remove(0);
            proof {
                assert(x == s0[i as int]);
                assert(s0.take(i as int + 1).drop_last() =~= s0.take(i as int));
                assert(s0.take(i as int + 1).last() == s0[i as int]);
                assert(s0.skip(i as int).drop_first() =~= s0.skip(i as int + 1));
            }
            if x.mast_index != 0 {
                out.push(x);
            } else if !x.deleted && !map.hits(&x.id, FLAG_PHYSICAL) {
                out.push(x);
            }
            i = i + 1;
        }
        proof {
            assert(s0.take(i as int) =~= s0);
        }
        self.references = out;
        clean_opt_id_field(&mut self.region, map, FLAG_REGION);
    }
}

/// The infos kept by cleanup: those not marked deleted.
pub open spec fn kept_infos(s: Seq<crate::dialogue::InfoRecord>) -> Seq<
    crate::dialogue::InfoRecord,
>
    decreases s.len(),
{
    if s.len() == 0 {
        Seq::empty()
    } else {
        let rest = kept_infos(s.drop_last());
        if !s.last().deleted {
            rest.push(s.last())
        } else {
            rest
        }
    }
}

/// Every kept info is not deleted.
pub proof fn lemma_kept_infos_clean(s: Seq<crate::dialogue::InfoRecord>)
    ensures
        kept_infos(s).len() <= s.len(),
        forall|i: int| 0 <= i < kept_infos(s).len() ==> !(#[trigger] kept_infos(s)[i]).deleted,
        (forall|i: int| 0 <= i < s.len() ==> !(#[trigger] s[i]).deleted) ==> kept_infos(s) == s,
        (exists|i: int| 0 <= i < s.len() && (#[trigger] s[i]).deleted) ==> kept_infos(s).len()
            < s.len(),
    decreases s.len(),
{
    if s.len() > 0 {
        lemma_kept_infos_clean(s.drop_last());
        if exists|i: int| 0 <= i < s.len() && (#[trigger] s[i]).deleted {
            let w = choose|i: int| 0 <= i < s.len() && (#[trigger] s[i]).deleted;
            if w < s.len() - 1 {
                assert(s.drop_last()[w] == s[w]);
                assert(s.drop_last()[w].deleted);
            }
        }
        let rest = kept_infos(s.drop_last());
        let whole = kept_infos(s);
        assert forall|i: int| 0 <= i < whole.len() implies !(#[trigger] whole[i]).deleted by {
            if i < rest.len() {
                assert(whole[i] == rest[i]);
            }
        }
        if forall|i: int| 0 <= i < s.len() ==> !(#[trigger] s[i]).deleted {
            assert forall|i: int| 0 <= i < s.len() - 1 implies !(
            #[trigger] s.drop_last()[i]).deleted by {
                assert(s.drop_last()[i] == s[i]);
            }
            assert(kept_infos(s.drop_last()) == s.drop_last());
            assert(kept_infos(s) =~= s);
        }
    }
}

/// The group after cleanup: deleted infos dropped; when any was dropped the
/// chain is repaired, and an end that was deleted leaves the new end's
/// outward link cleared.
pub open spec fn group_deletion_cleaned(
    o: crate::dialogue::DialogueGroup,
    n: crate::dialogue::DialogueGroup,
) -> bool {
    let kept = kept_infos(o.infos@);
    &&& n.dialogue == o.dialogue
    &&& if kept.len() == o.infos@.len() {
        n.infos@ == o.infos@
    } else if kept.len() == 0 {
        n.infos@.len() == 0
    } else {
        &&& n.infos@.len() == kept.len()
        &&& forall|i: int|
            0 <= i < kept.len() ==> {
                let x = #[trigger] n.infos@[i];
                x.id@ == kept[i].id@ && x.deleted == kept[i].deleted && x.ignored
                    == kept[i].ignored && x.payload == kept[i].payload
            }
        &&& forall|i: int| 1 <= i < kept.len() ==> (#[trigger] n.infos@[i]).prev_id@ == kept[i - 1].id@
        &&& forall|i: int|
            0 <= i < kept.len() - 1 ==> (#[trigger] n.infos@[i]).next_id@ == kept[i + 1].id@
        &&& n.infos@[0].prev_id@ == if o.infos@[0].deleted {
            Seq::<u8>::empty()
        } else {
            kept[0].prev_id@
        }
        &&& n.infos@[kept.len() - 1].next_id@ == if o.infos@[o.infos@.len() - 1].deleted {
            Seq::<u8>::empty()
        } else {
            kept[kept.len() - 1].next_id@
        }
    }
}

impl crate::dialogue::DialogueGroup {
    /// Drops deleted infos; when any was dropped and infos remain, repairs
    /// the chain and clears the outward link of an end whose old occupant
    /// was deleted.
    pub fn remove_deleted_infos(&mut self)
        ensures
            group_deletion_cleaned(*old(self), *final (self)),
            forall|i: int|
                0 <= i < final (self).infos@.len() ==> !(#[trigger] final (self).infos@[i]).deleted,
    {
        let ghost s0 = self.infos@;
        proof {
            lemma_kept_infos_clean(s0);
        }
        let mut any_deleted = false;
        let mut i: usize = 0;
        let n = self.infos.len();
        while i < n
            invariant
                n == self.infos@.len(),
                i <= n,
                self.infos@ == s0,
                any_deleted ==> exists|j: int| 0 <= j < s0.len() && (#[trigger] s0[j]).deleted,
                !any_deleted ==> forall|j: int| 0 <= j < i ==> !(#[trigger] s0[j]).deleted,
            decreases n - i,
        {
            if self.infos[i].deleted {
                any_deleted = true;
            }
            i = i + 1;
        }
        if !any_deleted {
            proof {
                lemma_kept_infos_clean(s0);
            }
            return ;
        }
        let front_deleted = self.infos[0].deleted;
        let back_deleted = self.infos[self.infos.len() - 1].deleted;

        let ghost dlg0 = self.dialogue;
        let mut out: Vec<crate::dialogue::InfoRecord> = Vec::new();
        let total = self.infos.len();
        let mut k: usize = 0;
        while self.infos.len() > 0
            invariant
                s0.len() == total,
                k <= s0.len(),
                self.infos@ =~= s0.skip(k as int),
                self.dialogue == dlg0,
                out@ == kept_infos(s0.take(k as int)),
            decreases self.infos@.len(),
        {
            let x = self.infos.remove(0);
            proof {
                assert(x == s0[k as int]);
                assert(s0.take(k as int + 1).drop_last() =~= s0.take(k as int));
                assert(s0.take(k as int + 1).last() == s0[k as int]);
                assert(s0.skip(k as int).drop_first() =~= s0.skip(k as int + 1));
            }
            if !x.deleted {
                out.push(x);
            }
            k = k + 1;
        }
        proof {
            assert(s0.take(k as int) =~= s0);
        }
        self.infos = out;
        let ghost kept = kept_infos(s0);
        proof {
            lemma_kept_infos_clean(s0);
        }

        if self.infos.len() > 0 {
            self.repair_links();
            if front_deleted {
                let front = &self.infos[0];
                let updated = crate::dialogue::InfoRecord {
                    id: dup_bytes(&front.id),
                    prev_id: Vec::new(),
                    next_id: dup_bytes(&front.next_id),
                    deleted: front.deleted,
                    ignored: front.ignored,
                    payload: front.payload,
                };
                self.infos.set(0, updated);
            }
            if back_deleted {
                let last = self.infos.len() - 1;
                let back = &self.infos[last];
                let updated = crate::dialogue::InfoRecord {
                    id: dup_bytes(&back.id),
                    prev_id: dup_bytes(&back.prev_id),
                    next_id: Vec::new(),
                    deleted: back.deleted,
                    ignored: back.ignored,
                    payload: back.payload,
                };
                self.infos.set(last, updated);
            }
        }
    }
}

} // verus!

verus! {

/// Some entry of the bucket sits at these coordinates.
pub open spec fn coords_present(s: Seq<crate::cells::ExteriorEntry>, c: (i32, i32)) -> bool {
    exists|k: int| 0 <= k < s.len() && (#[trigger] s[k]).coords == c
}

/// Some entry of the bucket carries this lowercased name.
pub open spec fn name_present(s: Seq<crate::cells::InteriorEntry>, n: Seq<u8>) -> bool {
    exists|k: int| 0 <= k < s.len() && (#[trigger] s[k]).name@ == n
}

/// `n` is the cleaned survivor of the exterior entry `o`: same coordinates,
/// its cell cleaned, deleted landscape and path-grid slots emptied.
pub open spec fn ext_cleaned_from(
    o: crate::cells::ExteriorEntry,
    n: crate::cells::ExteriorEntry,
    d: Seq<DeletionEntry>,
) -> bool {
    &&& n.coords == o.coords
    &&& o.slot.cell matches Some(c) && !c.deleted
    &&& n.slot.cell matches Some(c2) && cell_deletion_cleaned(
        o.slot.cell->Some_0,
        n.slot.cell->Some_0,
        d,
    )
    &&& n.slot.landscape == (match o.slot.landscape {
        Some(l) => if l.deleted {
            None
        } else {
            Some(l)
        },
        None => None::<crate::cells::LandscapeData>,
    })
    &&& n.slot.pathgrid == (match o.slot.pathgrid {
        Some(p) => if p.deleted {
            None
        } else {
            Some(p)
        },
        None => None::<crate::cells::PathGridData>,
    })
}

/// `n` is the cleaned survivor of the interior entry `o`.
pub open spec fn int_cleaned_from(
    o: crate::cells::InteriorEntry,
    n: crate::cells::InteriorEntry,
    d: Seq<DeletionEntry>,
) -> bool {
    &&& n.name@ == o.name@
    &&& o.slot.cell matches Some(c) && !c.deleted
    &&& n.slot.cell matches Some(c2) && cell_deletion_cleaned(
        o.slot.cell->Some_0,
        n.slot.cell->Some_0,
        d,
    )
    &&& n.slot.pathgrid == (match o.slot.pathgrid {
        Some(p) => if p.deleted {
            None
        } else {
            Some(p)
        },
        None => None::<crate::cells::PathGridData>,
    })
}

/// `n` is the cleaned survivor of one of `olds`.
pub open spec fn ext_cleaned_of_olds(
    olds: Seq<crate::cells::ExteriorEntry>,
    n: crate::cells::ExteriorEntry,
    d: Seq<DeletionEntry>,
) -> bool {
    exists|j: int| 0 <= j < olds.len() && #[trigger] ext_cleaned_from(olds[j], n, d)
}

/// `n` is the cleaned survivor of one of `olds`.
pub open spec fn int_cleaned_of_olds(
    olds: Seq<crate::cells::InteriorEntry>,
    n: crate::cells::InteriorEntry,
    d: Seq<DeletionEntry>,
) -> bool {
    exists|j: int| 0 <= j < olds.len() && #[trigger] int_cleaned_from(olds[j], n, d)
}

/// The entry itself appears in the bucket.
pub open spec fn int_entry_present(
    s: Seq<crate::cells::InteriorEntry>,
    e: crate::cells::InteriorEntry,
) -> bool {
    exists|k: int| 0 <= k < s.len() && #[trigger] s[k] == e
}

/// The exterior entry keeps its cell through cleanup.
pub open spec fn ext_survives(e: crate::cells::ExteriorEntry) -> bool {
    match e.slot.cell {
        Some(c) => !c.deleted,
        None => false,
    }
}

/// The interior entry keeps its cell through cleanup.
pub open spec fn int_survives(e: crate::cells::InteriorEntry) -> bool {
    match e.slot.cell {
        Some(c) => !c.deleted,
        None => false,
    }
}

/// A kind bit stays set when more bits join it.
pub proof fn lemma_or_preserves_bit(f: u64, m: u64, bit: u64)
    requires
        f & bit != 0,
    ensures
        (f | m) & bit != 0,
{
    assert(f & bit != 0 ==> (f | m) & bit != 0) by (bit_vector);
}

/// The records kept by cleanup: every record not marked deleted, and every
/// landscape texture.
pub open spec fn kept_objects(s: Seq<crate::records::ObjectRecord>) -> Seq<
    crate::records::ObjectRecord,
>
    decreases s.len(),
{
    if s.len() == 0 {
        Seq::empty()
    } else {
        let rest = kept_objects(s.drop_last());
        if !s.last().deleted || crate::records::is_texture(s.last()) {
            rest.push(s.last())
        } else {
            rest
        }
    }
}

/// Every kept record is not deleted or is a texture.
pub proof fn lemma_kept_objects_clean(s: Seq<crate::records::ObjectRecord>)
    ensures
        kept_objects(s).len() <= s.len(),
        forall|i: int|
            0 <= i < kept_objects(s).len() ==> !(#[trigger] kept_objects(s)[i]).deleted
                || crate::records::is_texture(kept_objects(s)[i]),
        (forall|i: int| 0 <= i < s.len() ==> (#[trigger] s[i]).id@.len() != 0) ==> forall|i: int|
            0 <= i < kept_objects(s).len() ==> (#[trigger] kept_objects(s)[i]).id@.len() != 0,
    decreases s.len(),
{
    if s.len() > 0 {
        lemma_kept_objects_clean(s.drop_last());
        let rest = kept_objects(s.drop_last());
        let whole = kept_objects(s);
        assert forall|i: int| 0 <= i < s.len() - 1 implies #[trigger] s.drop_last()[i] == s[i] by {}
        assert forall|i: int| 0 <= i < whole.len() implies (!(#[trigger] whole[i]).deleted
            || crate::records::is_texture(whole[i])) by {
            if i < rest.len() {
                assert(whole[i] == rest[i]);
            }
        }
        if forall|i: int| 0 <= i < s.len() ==> (#[trigger] s[i]).id@.len() != 0 {
            assert forall|i: int| 0 <= i < whole.len() implies (#[trigger] whole[i]).id@.len()
                != 0 by {
                if i < rest.len() {
                    assert(whole[i] == rest[i]);
                }
            }
        }
    }
}

/// The dialogue groups kept by cleanup: those whose topic record is not
/// marked deleted.
pub open spec fn kept_groups(s: Seq<crate::dialogue::DialogueEntry>) -> Seq<
    crate::dialogue::DialogueEntry,
>
    decreases s.len(),
{
    if s.len() == 0 {
        Seq::empty()
    } else {
        let rest = kept_groups(s.drop_last());
        if !s.last().group.dialogue.deleted {
            rest.push(s.last())
        } else {
            rest
        }
    }
}

/// Every kept group's topic record is not deleted.
pub proof fn lemma_kept_groups_clean(s: Seq<crate::dialogue::DialogueEntry>)
    ensures
        kept_groups(s).len() <= s.len(),
        forall|i: int|
            0 <= i < kept_groups(s).len() ==> !(#[trigger] kept_groups(
                s,
            )[i]).group.dialogue.deleted,
    decreases s.len(),
{
    if s.len() > 0 {
        lemma_kept_groups_clean(s.drop_last());
        let rest = kept_groups(s.drop_last());
        let whole = kept_groups(s);
        assert forall|i: int| 0 <= i < whole.len() implies !(#[trigger] whole[i]).group.dialogue.deleted by {
            if i < rest.len() {
                assert(whole[i] == rest[i]);
            }
        }
    }
}

impl crate::plugin::PluginData {
    /// Removes every record whose deleted flag is set (landscape textures
    /// are left in the object bucket) and purges dangling mentions of the
    /// deleted ids from all surviving records: id fields are cleared, list
    /// entries dropped, local cell references filtered, deleted infos cut
    /// out of their topic chains. Returns, as ghost data, the collected
    /// deletion map.
    pub fn remove_deleted(&mut self) -> (g: Ghost<Seq<DeletionEntry>>)
        requires
            forall|i: int|
                0 <= i < old(self).objects.entries@.len() ==> (
                #[trigger] old(self).objects.entries@[i]).id@.len() != 0,
            forall|i: int|
                0 <= i < old(self).cells.interiors@.len() ==> (
                #[trigger] old(self).cells.interiors@[i]).name@.len() != 0,
        ensures
            no_empty_keys(g@),
            final (self).header == old(self).header,
            forall|j: int|
                0 <= j < old(self).objects.entries@.len() && (
                #[trigger] old(self).objects.entries@[j]).deleted && !crate::records::is_texture(
                    old(self).objects.entries@[j],
                ) ==> id_hits(
                    g@,
                    old(self).objects.entries@[j].id@,
                    flag_of_body(old(self).objects.entries@[j].body),
                ),
            forall|j: int|
                0 <= j < old(self).cells.interiors@.len() && (match (
                #[trigger] old(self).cells.interiors@[j]).slot.cell {
                    Some(c) => c.deleted,
                    None => false,
                }) ==> id_hits(g@, old(self).cells.interiors@[j].name@, FLAG_CELL),
            final (self).objects.entries@.len() == kept_objects(old(self).objects.entries@).len(),
            forall|i: int|
                0 <= i < final (self).objects.entries@.len() ==> {
                    let n = #[trigger] final (self).objects.entries@[i];
                    let o = kept_objects(old(self).objects.entries@)[i];
                    n.id@ == o.id@ && n.deleted == o.deleted && n.ignored == o.ignored
                        && n.payload == o.payload && body_cleaned(o.body, n.body, g@)
                },
            forall|i: int|
                0 <= i < final (self).objects.entries@.len() ==> (!(#[trigger] final (
                self).objects.entries@[i]).deleted || crate::records::is_texture(
                    final (self).objects.entries@[i],
                )) && body_no_dangling(final (self).objects.entries@[i].body, g@),
            forall|i: int|
                0 <= i < final (self).cells.exteriors@.len() ==> {
                    let e = #[trigger] final (self).cells.exteriors@[i];
                    &&& e.slot.cell matches Some(c) && !c.deleted && cell_no_dangling(c, g@)
                    &&& match e.slot.landscape {
                        Some(l) => !l.deleted,
                        None => true,
                    }
                    &&& match e.slot.pathgrid {
                        Some(p) => !p.deleted,
                        None => true,
                    }
                },
            forall|j: int|
                0 <= j < old(self).cells.exteriors@.len() && ext_survives(
                    #[trigger] old(self).cells.exteriors@[j],
                ) ==> coords_present(
                    final (self).cells.exteriors@,
                    old(self).cells.exteriors@[j].coords,
                ),
            forall|i: int|
                0 <= i < final (self).cells.exteriors@.len() ==> ext_cleaned_of_olds(
                    old(self).cells.exteriors@,
                    #[trigger] final (self).cells.exteriors@[i],
                    g@,
                ),
            forall|i: int|
                0 <= i < final (self).cells.interiors@.len() ==> {
                    let e = #[trigger] final (self).cells.interiors@[i];
                    &&& e.slot.cell matches Some(c) && !c.deleted && cell_no_dangling(c, g@)
                    &&& match e.slot.pathgrid {
                        Some(p) => !p.deleted,
                        None => true,
                    }
                },
            forall|j: int|
                0 <= j < old(self).cells.interiors@.len() && int_survives(
                    #[trigger] old(self).cells.interiors@[j],
                ) ==> name_present(
                    final (self).cells.interiors@,
                    old(self).cells.interiors@[j].name@,
                ),
            forall|i: int|
                0 <= i < final (self).cells.interiors@.len() ==> int_cleaned_of_olds(
                    old(self).cells.interiors@,
                    #[trigger] final (self).cells.interiors@[i],
                    g@,
                ),
            final (self).dialogues.entries@.len() == kept_groups(
                old(self).dialogues.entries@,
            ).len(),
            forall|k: int|
                0 <= k < final (self).dialogues.entries@.len() ==> {
                    let n = #[trigger] final (self).dialogues.entries@[k];
                    let o = kept_groups(old(self).dialogues.entries@)[k];
                    n.key@ == o.key@ && group_deletion_cleaned(o.group, n.group)
                        && !n.group.dialogue.deleted && forall|q: int|
                        0 <= q < n.group.infos@.len() ==> !(#[trigger] n.group.infos@[q]).deleted
                },
    {
        let ghost o_obj = self.objects.entries@;
        let ghost o_int = self.cells.interiors@;
        let mut dmap = DeletionMap::new();

        // Collect and drop the deleted object records.
        let mut kept: Vec<crate::records::ObjectRecord> = Vec::new();
        let total_o = self.objects.entries.len();
        let mut i: usize = 0;
        while self.objects.entries.len() > 0
            invariant
                o_obj.len() == total_o,
                i <= o_obj.len(),
                self.objects.entries@ =~= o_obj.skip(i as int),
                kept@ == kept_objects(o_obj.take(i as int)),
                self.header == old(self).header,
                self.cells.exteriors@ == old(self).cells.exteriors@,
                self.cells.interiors@ == old(self).cells.interiors@,
                self.dialogues.entries@ == old(self).dialogues.entries@,
                no_empty_keys(dmap.entries@),
                forall|j: int|
                    0 <= j < o_obj.len() ==> (#[trigger] o_obj[j]).id@.len() != 0,
                forall|j: int|
                    0 <= j < i && (#[trigger] o_obj[j]).deleted && !crate::records::is_texture(
                        o_obj[j],
                    ) ==> id_hits(dmap.entries@, o_obj[j].id@, flag_of_body(o_obj[j].body)),
            decreases self.objects.entries@.len(),
        {
            let e = self.objects.entries.remove(0);
            proof {
                assert(e == o_obj[i as int]);
                assert(o_obj.take(i as int + 1).drop_last() =~= o_obj.take(i as int));
                assert(o_obj.take(i as int + 1).last() == o_obj[i as int]);
                assert(o_obj.skip(i as int).drop_first() =~= o_obj.skip(i as int + 1));
            }
            let is_tex = matches!(&e.body, crate::records::ObjectBody::LandscapeTexture { .. });
            if e.deleted && !is_tex {
                let ghost d_pre = dmap.entries@;
                let lid = to_lowercase(&e.id);
                let bit = flag_of_body_exec(&e.body);
                proof {
                    crate::ids::lemma_lower_idempotent(e.id@);
                }
                dmap.add(lid, bit);
                proof {
                    assert(flags_of(dmap.entries@, lower(e.id@)) == flags_of(d_pre, lower(e.id@))
                        | bit);
                    assert(forall|f: u64, b: u64| b != 0 ==> (f | b) & b != 0) by (bit_vector);
                    assert(bit != 0);
                    assert(id_hits(dmap.entries@, e.id@, bit));
                    assert forall|j: int|
                        0 <= j < i && (#[trigger] o_obj[j]).deleted
                            && !crate::records::is_texture(o_obj[j]) implies id_hits(
                        dmap.entries@,
                        o_obj[j].id@,
                        flag_of_body(o_obj[j].body),
                    ) by {
                        if lower(o_obj[j].id@) == lower(e.id@) {
                            lemma_or_preserves_bit(
                                flags_of(d_pre, lower(o_obj[j].id@)),
                                bit,
                                flag_of_body(o_obj[j].body),
                            );
                        }
                    }
                }
            } else {
                kept.push(e);
            }
            i = i + 1;
        }
        proof {
            assert(o_obj.take(i as int) =~= o_obj);
        }
        self.objects.entries = kept;
        proof {
            assert(self.objects.entries@ == kept_objects(o_obj));
        }

        // Collect and drop the deleted interiors.
        let mut kept_i: Vec<crate::cells::InteriorEntry> = Vec::new();
        let total_i = self.cells.interiors.len();
        let mut n: usize = 0;
        let ghost d_after_obj = dmap.entries@;
        while self.cells.interiors.len() > 0
            invariant
                o_int.len() == total_i,
                n <= o_int.len(),
                self.cells.interiors@ =~= o_int.skip(n as int),
                self.header == old(self).header,
                self.cells.exteriors@ == old(self).cells.exteriors@,
                self.objects.entries@ == kept_objects(o_obj),
                self.dialogues.entries@ == old(self).dialogues.entries@,
                no_empty_keys(dmap.entries@),
                forall|j: int|
                    0 <= j < o_int.len() ==> (#[trigger] o_int[j]).name@.len() != 0,
                forall|j: int|
                    0 <= j < o_obj.len() && (#[trigger] o_obj[j]).deleted
                        && !crate::records::is_texture(o_obj[j]) ==> id_hits(
                        dmap.entries@,
                        o_obj[j].id@,
                        flag_of_body(o_obj[j].body),
                    ),
                forall|j: int|
                    0 <= j < n && (match (#[trigger] o_int[j]).slot.cell {
                        Some(c) => c.deleted,
                        None => false,
                    }) ==> id_hits(dmap.entries@, o_int[j].name@, FLAG_CELL),
                forall|j: int|
                    0 <= j < kept_i@.len() ==> !(match (#[trigger] kept_i@[j]).slot.cell {
                        Some(c) => c.deleted,
                        None => false,
                    }),
                forall|j: int|
                    0 <= j < n && int_survives(#[trigger] o_int[j]) ==> int_entry_present(
                        kept_i@,
                        o_int[j],
                    ),
                forall|k: int|
                    0 <= k < kept_i@.len() ==> int_entry_present(o_int, #[trigger] kept_i@[k]),
            decreases self.cells.interiors@.len(),
        {
            let entry = self.cells.interiors.remove(0);
            proof {
                assert(entry == o_int[n as int]);
                assert(o_int.skip(n as int).drop_first() =~= o_int.skip(n as int + 1));
            }
            let cell_deleted = match &entry.slot.cell {
                Some(c) => c.deleted,
                None => false,
            };
            if cell_deleted {
                let ghost d_pre = dmap.entries@;
                let lid = to_lowercase(&entry.name);
                proof {
                    crate::ids::lemma_lower_idempotent(entry.name@);
                }
                dmap.add(lid, FLAG_CELL);
                proof {
                    assert(forall|f: u64, b: u64| b != 0 ==> (f | b) & b != 0) by (bit_vector);
                    assert(FLAG_CELL != 0);
                    assert(id_hits(dmap.entries@, entry.name@, FLAG_CELL));
                    assert forall|j: int|
                        0 <= j < o_obj.len() && (#[trigger] o_obj[j]).deleted
                            && !crate::records::is_texture(o_obj[j]) implies id_hits(
                        dmap.entries@,
                        o_obj[j].id@,
                        flag_of_body(o_obj[j].body),
                    ) by {
                        if lower(o_obj[j].id@) == lower(entry.name@) {
                            lemma_or_preserves_bit(
                                flags_of(d_pre, lower(o_obj[j].id@)),
                                FLAG_CELL,
                                flag_of_body(o_obj[j].body),
                            );
                        }
                    }
                    assert forall|j: int|
                        0 <= j < n && (match (#[trigger] o_int[j]).slot.cell {
                            Some(c) => c.deleted,
                            None => false,
                        }) implies id_hits(dmap.entries@, o_int[j].name@, FLAG_CELL) by {
                        if lower(o_int[j].name@) == lower(entry.name@) {
                            lemma_or_preserves_bit(
                                flags_of(d_pre, lower(o_int[j].name@)),
                                FLAG_CELL,
                                FLAG_CELL,
                            );
                        }
                    }
                }
            } else {
                let ghost kept_pre = kept_i@;
                kept_i.push(entry);
                proof {
                    assert forall|j: int|
                        0 <= j < n + 1 && int_survives(#[trigger] o_int[j]) implies
                        int_entry_present(kept_i@, o_int[j]) by {
                        if j < n {
                            let k = choose|k: int|
                                0 <= k < kept_pre.len() && #[trigger] kept_pre[k] == o_int[j];
                            assert(kept_i@[k] == o_int[j]);
                        } else {
                            assert(kept_i@[kept_i@.len() - 1] == o_int[j]);
                        }
                    }
                    assert forall|k: int| 0 <= k < kept_i@.len() implies int_entry_present(
                        o_int,
                        #[trigger] kept_i@[k],
                    ) by {
                        if k < kept_pre.len() {
                            assert(kept_i@[k] == kept_pre[k]);
                            let j = choose|j: int|
                                0 <= j < o_int.len() && #[trigger] o_int[j] == kept_pre[k];
                            assert(o_int[j] == kept_i@[k]);
                        } else {
                            assert(o_int[n as int] == kept_i@[k]);
                        }
                    }
                }
            }
            n = n + 1;
        }
        proof {
            assert forall|j: int|
                0 <= j < o_int.len() && int_survives(#[trigger] o_int[j]) implies
                int_entry_present(kept_i@, o_int[j]) by {}
        }
        self.cells.interiors = kept_i;
        let ghost int_b = self.cells.interiors@;

        let ghost d = dmap.entries@;
        let ghost kept_seq = kept_objects(o_obj);

        // Clean the surviving object records.
        proof {
            lemma_kept_objects_clean(o_obj);
        }
        let n_obj = self.objects.entries.len();
        let mut c: usize = 0;
        while c < n_obj
            invariant
                kept_seq == kept_objects(o_obj),
                n_obj == kept_seq.len(),
                c <= n_obj,
                self.objects.entries@.len() == n_obj,
                d == dmap.entries@,
                no_empty_keys(d),
                self.header == old(self).header,
                self.cells.exteriors@ == old(self).cells.exteriors@,
                self.cells.interiors@ == int_b,
                self.dialogues.entries@ == old(self).dialogues.entries@,
                forall|j: int| c <= j < n_obj ==> self.objects.entries@[j] == kept_seq[j],
                forall|j: int|
                    0 <= j < c ==> {
                        let nw = #[trigger] self.objects.entries@[j];
                        let o = kept_seq[j];
                        nw.id@ == o.id@ && nw.deleted == o.deleted && nw.ignored == o.ignored
                            && nw.payload == o.payload && body_cleaned(o.body, nw.body, d)
                            && body_no_dangling(nw.body, d)
                    },
            decreases n_obj - c,
        {
            let ghost pre = self.objects.entries@;
            let mut rec = self.objects.entries.remove(c);
            rec.clean_deletions(&dmap);
            self.objects.entries.insert(c, rec);
            proof {
                assert(self.objects.entries@ =~= pre.update(c as int, self.objects.entries@[c as int]));
                lemma_body_cleaned_no_dangling(
                    kept_seq[c as int].body,
                    self.objects.entries@[c as int].body,
                    d,
                );
            }
            c = c + 1;
        }

        let ghost obj_done = self.objects.entries@;

        // Clean the cells and drop deleted slots and emptied entries.
        let ghost ext_pre = self.cells.exteriors@;
        let mut out_e: Vec<crate::cells::ExteriorEntry> = Vec::new();
        let mut x: usize = 0;
        let total_e = self.cells.exteriors.len();
        while self.cells.exteriors.len() > 0
            invariant
                x <= ext_pre.len(),
                ext_pre.len() == total_e,
                self.cells.exteriors@ =~= ext_pre.skip(x as int),
                d == dmap.entries@,
                no_empty_keys(d),
                self.header == old(self).header,
                self.objects.entries@ == obj_done,
                self.cells.interiors@ == int_b,
                self.dialogues.entries@ == old(self).dialogues.entries@,
                ext_pre == old(self).cells.exteriors@,
                forall|j: int|
                    0 <= j < x && ext_survives(#[trigger] ext_pre[j]) ==> coords_present(
                        out_e@,
                        ext_pre[j].coords,
                    ),
                forall|k: int|
                    0 <= k < out_e@.len() ==> ext_cleaned_of_olds(ext_pre, #[trigger] out_e@[k], d),
                forall|j: int|
                    0 <= j < out_e@.len() ==> {
                        let e = #[trigger] out_e@[j];
                        &&& e.slot.cell matches Some(cc) && !cc.deleted && cell_no_dangling(cc, d)
                        &&& match e.slot.landscape {
                            Some(l) => !l.deleted,
                            None => true,
                        }
                        &&& match e.slot.pathgrid {
                            Some(p) => !p.deleted,
                            None => true,
                        }
                    },
            decreases self.cells.exteriors@.len(),
        {
            let mut entry = self.cells.exteriors.remove(0);
            proof {
                assert(ext_pre.skip(x as int).drop_first() =~= ext_pre.skip(x as int + 1));
            }
            if let Some(cc) = &mut entry.slot.cell {
                cc.clean_deletions(&dmap);
                proof {
                    lemma_kept_refs_clean(ext_pre[x as int].slot.cell->Some_0.references@, d);
                }
            }
            let drop_cell = match &entry.slot.cell {
                Some(cc) => cc.deleted,
                None => true,
            };
            let drop_land = match &entry.slot.landscape {
                Some(l) => l.deleted,
                None => false,
            };
            if drop_land {
                entry.slot.landscape = None;
            }
            let drop_path = match &entry.slot.pathgrid {
                Some(p) => p.deleted,
                None => false,
            };
            if drop_path {
                entry.slot.pathgrid = None;
            }
            let ghost out_pre = out_e@;
            if !drop_cell {
                proof {
                    if entry.slot.cell is Some {
                        lemma_cell_cleaned_no_dangling(
                            ext_pre[x as int].slot.cell->Some_0,
                            entry.slot.cell->Some_0,
                            d,
                        );
                    }
                    assert(ext_cleaned_from(ext_pre[x as int], entry, d));
                }
                out_e.push(entry);
            }
            proof {
                assert forall|j: int|
                    0 <= j < x + 1 && ext_survives(#[trigger] ext_pre[j]) implies coords_present(
                    out_e@,
                    ext_pre[j].coords,
                ) by {
                    if j < x {
                        let k = choose|k: int|
                            0 <= k < out_pre.len() && (#[trigger] out_pre[k]).coords
                                == ext_pre[j].coords;
                        assert(out_e@[k].coords == ext_pre[j].coords);
                    } else {
                        assert(out_e@[out_e@.len() - 1].coords == ext_pre[j].coords);
                    }
                }
                assert forall|k: int| 0 <= k < out_e@.len() implies ext_cleaned_of_olds(
                    ext_pre,
                    #[trigger] out_e@[k],
                    d,
                ) by {
                    if k < out_pre.len() {
                        assert(out_e@[k] == out_pre[k]);
                        let j = choose|j: int|
                            0 <= j < ext_pre.len() && #[trigger] ext_cleaned_from(
                                ext_pre[j],
                                out_pre[k],
                                d,
                            );
                        assert(ext_cleaned_from(ext_pre[j], out_e@[k], d));
                    } else {
                        assert(ext_cleaned_from(ext_pre[x as int], out_e@[k], d));
                    }
                }
            }
            x = x + 1;
        }
        let ghost ext_done = out_e@;
        self.cells.exteriors = out_e;
        proof {
            assert(self.cells.exteriors@ == ext_done);
        }

        let ghost int_pre = self.cells.interiors@;
        let mut out_i: Vec<crate::cells::InteriorEntry> = Vec::new();
        let mut y: usize = 0;
        let total_y = self.cells.interiors.len();
        while self.cells.interiors.len() > 0
            invariant
                y <= int_pre.len(),
                int_pre.len() == total_y,
                self.cells.interiors@ =~= int_pre.skip(y as int),
                d == dmap.entries@,
                no_empty_keys(d),
                self.header == old(self).header,
                self.objects.entries@ == obj_done,
                self.cells.exteriors@ == ext_done,
                self.dialogues.entries@ == old(self).dialogues.entries@,
                int_pre == int_b,
                forall|k: int|
                    0 <= k < int_b.len() ==> int_entry_present(
                        old(self).cells.interiors@,
                        #[trigger] int_b[k],
                    ),
                forall|j: int|
                    0 <= j < y && int_survives(#[trigger] int_pre[j]) ==> name_present(
                        out_i@,
                        int_pre[j].name@,
                    ),
                forall|k: int|
                    0 <= k < out_i@.len() ==> int_cleaned_of_olds(
                        old(self).cells.interiors@,
                        #[trigger] out_i@[k],
                        d,
                    ),
                forall|j: int|
                    0 <= j < out_i@.len() ==> {
                        let e = #[trigger] out_i@[j];
                        &&& e.slot.cell matches Some(cc) && !cc.deleted && cell_no_dangling(cc, d)
                        &&& match e.slot.pathgrid {
                            Some(p) => !p.deleted,
                            None => true,
                        }
                    },
            decreases self.cells.interiors@.len(),
        {
            let mut entry = self.cells.interiors.remove(0);
            proof {
                assert(int_pre.skip(y as int).drop_first() =~= int_pre.skip(y as int + 1));
            }
            if let Some(cc) = &mut entry.slot.cell {
                cc.clean_deletions(&dmap);
            }
            let drop_cell = match &entry.slot.cell {
                Some(cc) => cc.deleted,
                None => true,
            };
            let drop_path = match &entry.slot.pathgrid {
                Some(p) => p.deleted,
                None => false,
            };
            if drop_path {
                entry.slot.pathgrid = None;
            }
            let ghost out_pre = out_i@;
            if !drop_cell {
                proof {
                    if entry.slot.cell is Some {
                        lemma_cell_cleaned_no_dangling(
                            int_pre[y as int].slot.cell->Some_0,
                            entry.slot.cell->Some_0,
                            d,
                        );
                    }
                    assert(int_cleaned_from(int_pre[y as int], entry, d));
                    assert(int_entry_present(old(self).cells.interiors@, int_pre[y as int]));
                    let j0 = choose|j0: int|
                        0 <= j0 < old(self).cells.interiors@.len()
                            && #[trigger] old(self).cells.interiors@[j0] == int_pre[y as int];
                    assert(int_cleaned_from(old(self).cells.interiors@[j0], entry, d));
                }
                out_i.push(entry);
            }
            proof {
                assert forall|j: int|
                    0 <= j < y + 1 && int_survives(#[trigger] int_pre[j]) implies name_present(
                    out_i@,
                    int_pre[j].name@,
                ) by {
                    if j < y {
                        let k = choose|k: int|
                            0 <= k < out_pre.len() && (#[trigger] out_pre[k]).name@
                                == int_pre[j].name@;
                        assert(out_i@[k].name@ == int_pre[j].name@);
                    } else {
                        assert(out_i@[out_i@.len() - 1].name@ == int_pre[j].name@);
                    }
                }
                assert forall|k: int| 0 <= k < out_i@.len() implies int_cleaned_of_olds(
                    old(self).cells.interiors@,
                    #[trigger] out_i@[k],
                    d,
                ) by {
                    if k < out_pre.len() {
                        assert(out_i@[k] == out_pre[k]);
                        let j = choose|j: int|
                            0 <= j < old(self).cells.interiors@.len()
                                && #[trigger] int_cleaned_from(
                                old(self).cells.interiors@[j],
                                out_pre[k],
                                d,
                            );
                        assert(int_cleaned_from(old(self).cells.interiors@[j], out_i@[k], d));
                    }
                }
            }
            y = y + 1;
        }
        let ghost int_done = out_i@;
        self.cells.interiors = out_i;
        proof {
            assert(self.cells.interiors@ == int_done);
            assert forall|j: int|
                0 <= j < o_int.len() && int_survives(#[trigger] o_int[j]) implies name_present(
                int_done,
                o_int[j].name@,
            ) by {
                assert(int_entry_present(int_b, o_int[j]));
                let k = choose|k: int| 0 <= k < int_b.len() && #[trigger] int_b[k] == o_int[j];
                assert(int_pre[k] == o_int[j]);
                assert(int_survives(int_pre[k]));
                assert(name_present(int_done, int_pre[k].name@));
            }
        }

        // Drop deleted topics, then cut deleted infos out of their chains.
        let ghost dlg0 = self.dialogues.entries@;
        proof {
            lemma_kept_groups_clean(dlg0);
        }
        let mut out_d: Vec<crate::dialogue::DialogueEntry> = Vec::new();
        let mut w: usize = 0;
        let total_w = self.dialogues.entries.len();
        while self.dialogues.entries.len() > 0
            invariant
                w <= dlg0.len(),
                dlg0.len() == total_w,
                self.dialogues.entries@ =~= dlg0.skip(w as int),
                self.header == old(self).header,
                self.objects.entries@ == obj_done,
                self.cells.exteriors@ == ext_done,
                self.cells.interiors@ == int_done,
                out_d@ == kept_groups(dlg0.take(w as int)),
            decreases self.dialogues.entries@.len(),
        {
            let entry = self.dialogues.entries.remove(0);
            proof {
                assert(entry == dlg0[w as int]);
                assert(dlg0.take(w as int + 1).drop_last() =~= dlg0.take(w as int));
                assert(dlg0.take(w as int + 1).last() == dlg0[w as int]);
                assert(dlg0.skip(w as int).drop_first() =~= dlg0.skip(w as int + 1));
            }
            if !entry.group.dialogue.deleted {
                out_d.push(entry);
            }
            w = w + 1;
        }
        proof {
            assert(dlg0.take(w as int) =~= dlg0);
        }
        self.dialogues.entries = out_d;

        let ghost gkept = kept_groups(dlg0);
        let n_d = self.dialogues.entries.len();
        let mut z: usize = 0;
        while z < n_d
            invariant
                gkept == kept_groups(dlg0),
                n_d == gkept.len(),
                z <= n_d,
                self.dialogues.entries@.len() == n_d,
                self.header == old(self).header,
                self.objects.entries@ == obj_done,
                self.cells.exteriors@ == ext_done,
                self.cells.interiors@ == int_done,
                forall|j: int| z <= j < n_d ==> self.dialogues.entries@[j] == gkept[j],
                forall|k: int|
                    0 <= k < z ==> {
                        let nw = #[trigger] self.dialogues.entries@[k];
                        let o = gkept[k];
                        nw.key@ == o.key@ && group_deletion_cleaned(o.group, nw.group)
                            && !nw.group.dialogue.deleted && forall|q: int|
                            0 <= q < nw.group.infos@.len() ==> !(
                            #[trigger] nw.group.infos@[q]).deleted
                    },
            decreases n_d - z,
        {
            let ghost pre = self.dialogues.entries@;
            let mut entry = self.dialogues.entries.remove(z);
            proof {
                lemma_kept_groups_clean(dlg0);
                assert(!gkept[z as int].group.dialogue.deleted);
            }
            entry.group.remove_deleted_infos();
            self.dialogues.entries.insert(z, entry);
            proof {
                assert(self.dialogues.entries@ =~= pre.update(
                    z as int,
                    self.dialogues.entries@[z as int],
                ));
            }
            z = z + 1;
        }

        Ghost(dmap.entries@)
    }
}

} // verus!
