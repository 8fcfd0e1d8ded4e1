//! The record model.
//!
//! A record is a tagged variant drawn from a fixed closed set. The model
//! keeps, for each kind, the fields the merge engine reads or rewrites: the
//! editor id, the deleted and ignored flag bits, and the id-valued fields
//! that deletion cleanup may clear. Everything else a record carries rides
//! along in an opaque `payload` handle that the surrounding application
//! resolves back to the full decoded record. An absent id field is held as
//! the empty byte string.

use vstd::prelude::*;

use crate::ids::lower;

verus! {

/// One entry of a container's or actor's inventory.
#[derive(Debug, PartialEq, Eq)]
pub struct InventoryItem {
    pub count: i32,
    pub id: Vec<u8>,
}

/// A travel destination of an actor; the position rides in the payload.
#[derive(Debug, PartialEq, Eq)]
pub struct TravelDestination {
    pub cell: Vec<u8>,
    pub payload: usize,
}

/// One biped-object slot of a wearable record.
#[derive(Debug, PartialEq, Eq)]
pub struct BipedObject {
    pub male_bodypart: Vec<u8>,
    pub female_bodypart: Vec<u8>,
    pub payload: usize,
}

/// One region sound with its play chance.
#[derive(Debug, PartialEq, Eq)]
pub struct RegionSound {
    pub sound: Vec<u8>,
    pub chance: u8,
}

/// One entry of a leveled list.
#[derive(Debug, PartialEq, Eq)]
pub struct LeveledEntry {
    pub id: Vec<u8>,
    pub level: u16,
}

/// An AI package of an actor.
#[derive(Debug, PartialEq, Eq)]
pub enum AiPackage {
    Travel { payload: usize },
    Wander { payload: usize },
    Escort { target: Vec<u8>, cell: Vec<u8>, payload: usize },
    Follow { target: Vec<u8>, cell: Vec<u8>, payload: usize },
    Activate { target: Vec<u8>, payload: usize },
}

/// The kind-specific part of an object record: every variant of the closed
/// record set that lives in the object buckets (cells, landscapes, path
/// grids, dialogue and the header have buckets of their own).
#[derive(Debug, PartialEq, Eq)]
pub enum ObjectBody {
    GameSetting,
    GlobalVariable,
    Class,
    Faction,
    Race { spells: Vec<Vec<u8>> },
    Sound,
    SoundGen { creature: Vec<u8>, sound: Vec<u8> },
    Skill,
    MagicEffect {
        bolt_sound: Vec<u8>,
        cast_sound: Vec<u8>,
        hit_sound: Vec<u8>,
        area_sound: Vec<u8>,
        cast_visual: Vec<u8>,
        bolt_visual: Vec<u8>,
        hit_visual: Vec<u8>,
        area_visual: Vec<u8>,
    },
    Script,
    Region { sleep_creature: Vec<u8>, sounds: Vec<RegionSound> },
    Birthsign { spells: Vec<Vec<u8>> },
    StartScript { script: Vec<u8> },
    LandscapeTexture { index: u32 },
    Spell,
    Static,
    Door { script: Vec<u8>, open_sound: Vec<u8>, close_sound: Vec<u8> },
    MiscItem { script: Vec<u8> },
    Weapon { script: Vec<u8>, enchanting: Vec<u8> },
    Container { script: Vec<u8>, inventory: Vec<InventoryItem> },
    Creature {
        script: Vec<u8>,
        inventory: Vec<InventoryItem>,
        spells: Vec<Vec<u8>>,
        ai_packages: Vec<AiPackage>,
        travel_destinations: Vec<TravelDestination>,
    },
    Bodypart,
    Light { script: Vec<u8>, sound: Vec<u8> },
    Enchanting,
    Npc {
        script: Vec<u8>,
        inventory: Vec<InventoryItem>,
        spells: Vec<Vec<u8>>,
        ai_packages: Vec<AiPackage>,
        travel_destinations: Vec<TravelDestination>,
        race: Vec<u8>,
        class: Vec<u8>,
        faction: Vec<u8>,
        head: Vec<u8>,
        hair: Vec<u8>,
    },
    Armor { script: Vec<u8>, enchanting: Vec<u8>, biped_objects: Vec<BipedObject> },
    Clothing { script: Vec<u8>, enchanting: Vec<u8>, biped_objects: Vec<BipedObject> },
    RepairItem { script: Vec<u8> },
    Activator { script: Vec<u8> },
    Apparatus { script: Vec<u8> },
    Lockpick { script: Vec<u8> },
    Probe { script: Vec<u8> },
    Ingredient { script: Vec<u8> },
    Book { script: Vec<u8>, enchanting: Vec<u8> },
    Alchemy { script: Vec<u8> },
    LeveledItem { items: Vec<LeveledEntry> },
    LeveledCreature { creatures: Vec<LeveledEntry> },
}

/// An object record: its editor id, the two flag bits the merge engine
/// reads, a handle to the rest of the decoded record, and the kind-specific
/// fields.
#[derive(Debug, PartialEq, Eq)]
pub struct ObjectRecord {
    pub id: Vec<u8>,
    pub deleted: bool,
    pub ignored: bool,
    pub payload: usize,
    pub body: ObjectBody,
}

/// Kinds in the shared ("physical") id space: their ids are unique across
/// the whole set, so they share one bucket key tag.
pub open spec fn uses_shared_id_space(body: ObjectBody) -> bool {
    match body {
        ObjectBody::Activator { .. } => true,
        ObjectBody::Alchemy { .. } => true,
        ObjectBody::Apparatus { .. } => true,
        ObjectBody::Armor { .. } => true,
        ObjectBody::Bodypart => true,
        ObjectBody::Book { .. } => true,
        ObjectBody::Clothing { .. } => true,
        ObjectBody::Container { .. } => true,
        ObjectBody::Creature { .. } => true,
        ObjectBody::Door { .. } => true,
        ObjectBody::Enchanting => true,
        ObjectBody::Ingredient { .. } => true,
        ObjectBody::LeveledCreature { .. } => true,
        ObjectBody::LeveledItem { .. } => true,
        ObjectBody::Light { .. } => true,
        ObjectBody::Lockpick { .. } => true,
        ObjectBody::MiscItem { .. } => true,
        ObjectBody::Npc { .. } => true,
        ObjectBody::Probe { .. } => true,
        ObjectBody::RepairItem { .. } => true,
        ObjectBody::Spell => true,
        ObjectBody::Static => true,
        ObjectBody::Weapon { .. } => true,
        _ => false,
    }
}

/// The bucket key tag of a record kind. Kinds in the shared id space use
/// the reserved tag 0; every other kind gets a tag of its own.
pub open spec fn key_tag(body: ObjectBody) -> u32 {
    match body {
        ObjectBody::Birthsign { .. } => 1,
        ObjectBody::Class => 2,
        ObjectBody::Faction => 3,
        ObjectBody::GlobalVariable => 4,
        ObjectBody::LandscapeTexture { .. } => 5,
        ObjectBody::MagicEffect { .. } => 6,
        ObjectBody::Race { .. } => 7,
        ObjectBody::Region { .. } => 8,
        ObjectBody::Script => 9,
        ObjectBody::Skill => 10,
        ObjectBody::Sound => 11,
        ObjectBody::SoundGen { .. } => 12,
        ObjectBody::StartScript { .. } => 13,
        ObjectBody::GameSetting => 14,
        _ => 0,
    }
}

/// The bucket key of an object record: its kind's tag and its lowercased id.
pub open spec fn record_key(r: ObjectRecord) -> (u32, Seq<u8>) {
    (key_tag(r.body), lower(r.id@))
}

/// Whether the record is a landscape texture.
pub open spec fn is_texture(r: ObjectRecord) -> bool {
    r.body matches ObjectBody::LandscapeTexture { .. }
}

/// The texture index of a landscape-texture record (0 for other kinds).
pub open spec fn texture_index(r: ObjectRecord) -> u32 {
    match r.body {
        ObjectBody::LandscapeTexture { index } => index,
        _ => 0,
    }
}

/// The bucket key tag, computed.
pub fn key_tag_of(body: &ObjectBody) -> (r: u32)
    ensures
        r == key_tag(*body),
{
    match body {
        ObjectBody::Birthsign { .. } => 1,
        ObjectBody::Class => 2,
        ObjectBody::Faction => 3,
        ObjectBody::GlobalVariable => 4,
        ObjectBody::LandscapeTexture { .. } => 5,
        ObjectBody::MagicEffect { .. } => 6,
        ObjectBody::Race { .. } => 7,
        ObjectBody::Region { .. } => 8,
        ObjectBody::Script => 9,
        ObjectBody::Skill => 10,
        ObjectBody::Sound => 11,
        ObjectBody::SoundGen { .. } => 12,
        ObjectBody::StartScript { .. } => 13,
        ObjectBody::GameSetting => 14,
        _ => 0,
    }
}

} // verus!
