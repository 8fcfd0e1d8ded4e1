//! A verified merge engine for layered game-record files.
//!
//! A plugin file layers edits on top of a list of master files. This crate
//! rewrites a plugin's edits into one of its masters: it models the record
//! collection, remaps master and texture indices, merges record buckets,
//! maintains dialogue ordering, and cleans up deletions. The binary codec
//! for the on-disk format, file handling and the command line are outside
//! collaborators and live in the surrounding application.

pub mod cell_utils;
pub mod cells;
pub mod collect;
pub mod deletions;
pub mod dialogue;
pub mod extensions;
pub mod ids;
pub mod lookup;
pub mod masters;
pub mod merge;
pub mod objects;
pub mod plugin;
pub mod records;
pub mod remap;
pub mod textures;

use vstd::prelude::*;

verus! {

/// Options selecting the optional post-merge passes.
pub struct MergeOptions {
    /// Remove records whose deleted flag is set and purge dangling references.
    pub remove_deleted: bool,
    /// Move references that declare another destination cell into that cell.
    pub apply_moved_references: bool,
    /// Keep references that duplicate another reference's id and transform.
    pub preserve_duplicate_references: bool,
}

impl Default for MergeOptions {
    fn default() -> (r: Self)
        ensures
            !r.remove_deleted,
            !r.apply_moved_references,
            !r.preserve_duplicate_references,
    {
        MergeOptions {
            remove_deleted: false,
            apply_moved_references: false,
            preserve_duplicate_references: false,
        }
    }
}

} // verus!
