//! Cells and their reference tables.
//!
//! A cell is a spatial container of references, keyed by `(mast_index,
//! refr_index)`; a reference with `mast_index == 0` is local to the file,
//! otherwise it points at the master at that 1-based position of the
//! header's masters list. Interiors are keyed by lowercased name, exteriors
//! by grid coordinates. Float-valued transform components are carried as
//! their bit patterns; the engine's transform arithmetic happens outside
//! the verified core.

use vstd::prelude::*;

use crate::ids::{bytes_eq, lower};
use crate::lookup::{first_match, lemma_first_match};

verus! {

/// A placed instance of an object inside a cell.
#[derive(Debug, PartialEq, Eq)]
pub struct RefEntry {
    pub mast_index: u32,
    pub refr_index: u32,
    pub id: Vec<u8>,
    pub deleted: bool,
    /// The exterior cell this reference declares as its real home.
    pub moved_cell: Option<(i32, i32)>,
    /// Bit patterns of the translation components.
    pub translation: (u32, u32, u32),
    /// Bit patterns of the Euler rotation components.
    pub rotation: (u32, u32, u32),
    /// Bit pattern of the scale, when one is stored.
    pub scale: Option<u32>,
    pub payload: usize,
}

/// The cell record: name, placement, the optional fields the merge policy
/// treats specially, and the reference table.
#[derive(Debug, PartialEq, Eq)]
pub struct CellData {
    pub name: Vec<u8>,
    pub deleted: bool,
    pub ignored: bool,
    pub is_interior: bool,
    pub grid: (i32, i32),
    pub region: Option<Vec<u8>>,
    pub map_color: Option<u32>,
    /// Bit pattern of the water height, when one is stored.
    pub water_height_bits: Option<u32>,
    pub atmosphere_payload: Option<usize>,
    pub data_payload: usize,
    pub references: Vec<RefEntry>,
}

/// A landscape record: its grid and its stored texture indices, where a
/// stored value `v > 0` means logical texture index `v - 1` and `0` means
/// no texture.
#[derive(Debug, PartialEq, Eq)]
pub struct LandscapeData {
    pub deleted: bool,
    pub ignored: bool,
    pub grid: (i32, i32),
    pub texture_indices: Vec<u16>,
    pub payload: usize,
}

/// A path grid record: the cell name it belongs to and its grid.
#[derive(Debug, PartialEq, Eq)]
pub struct PathGridData {
    pub deleted: bool,
    pub ignored: bool,
    pub cell: Vec<u8>,
    pub grid: (i32, i32),
    pub payload: usize,
}

/// The slots of an interior cell.
#[derive(Debug, PartialEq, Eq)]
pub struct Interior {
    pub cell: Option<CellData>,
    pub pathgrid: Option<PathGridData>,
}

/// The slots of an exterior cell.
#[derive(Debug, PartialEq, Eq)]
pub struct Exterior {
    pub cell: Option<CellData>,
    pub landscape: Option<LandscapeData>,
    pub pathgrid: Option<PathGridData>,
}

/// An interior keyed by its lowercased name.
#[derive(Debug, PartialEq, Eq)]
pub struct InteriorEntry {
    pub name: Vec<u8>,
    pub slot: Interior,
}

/// An exterior keyed by its grid coordinates.
#[derive(Debug, PartialEq, Eq)]
pub struct ExteriorEntry {
    pub coords: (i32, i32),
    pub slot: Exterior,
}

/// The cell buckets of a plugin.
pub struct Cells {
    pub interiors: Vec<InteriorEntry>,
    pub exteriors: Vec<ExteriorEntry>,
}

/// The index of the interior with the given lowercased name, or -1.
pub open spec fn find_interior_spec(s: Seq<InteriorEntry>, name: Seq<u8>) -> int {
    first_match(s, |e: InteriorEntry| e.name@ == name)
}

/// The index of the exterior at the given coordinates, or -1.
pub open spec fn find_exterior_spec(s: Seq<ExteriorEntry>, coords: (i32, i32)) -> int {
    first_match(s, |e: ExteriorEntry| e.coords == coords)
}

/// Interior keys are unique.
pub open spec fn interiors_wf(s: Seq<InteriorEntry>) -> bool {
    forall|i: int, j: int|
        0 <= i < j < s.len() ==> (#[trigger] s[i]).name@ != (#[trigger] s[j]).name@
}

/// Exterior keys are unique.
pub open spec fn exteriors_wf(s: Seq<ExteriorEntry>) -> bool {
    forall|i: int, j: int|
        0 <= i < j < s.len() ==> (#[trigger] s[i]).coords != (#[trigger] s[j]).coords
}

/// Reference keys within one cell are unique.
pub open spec fn refs_wf(s: Seq<RefEntry>) -> bool {
    forall|i: int, j: int|
        0 <= i < j < s.len() ==> ((#[trigger] s[i]).mast_index, s[i].refr_index) != ((
            #[trigger] s[j]).mast_index,
        s[j].refr_index,
        )
}

impl Cells {
    /// Empty cell buckets.
    pub fn new() -> (r: Self)
        ensures
            r.interiors@.len() == 0,
            r.exteriors@.len() == 0,
    {
        Cells { interiors: Vec::new(), exteriors: Vec::new() }
    }

    /// The index of the interior with the given lowercased name.
    pub fn find_interior(&self, name: &Vec<u8>) -> (r: Option<usize>)
        ensures
            r matches Some(i) ==> i == find_interior_spec(self.interiors@, name@),
            r is None ==> find_interior_spec(self.interiors@, name@) == -1,
    {
        let ghost pred = |e: InteriorEntry| e.name@ == name@;
        proof {
            lemma_first_match(self.interiors@, pred);
        }
        let mut i: usize = 0;
        while i < self.interiors.len()
            invariant
                i <= self.interiors@.len(),
                pred == (|e: InteriorEntry| e.name@ == name@),
                forall|j: int| 0 <= j < i ==> !pred(#[trigger] self.interiors@[j]),
            decreases self.interiors@.len() - i,
        {
            if bytes_eq(&self.interiors[i].name, name) {
                proof {
                    lemma_first_match(self.interiors@, pred);
                    let f = first_match(self.interiors@, pred);
                    assert(pred(self.interiors@[i as int]));
                    if f > i {
                        assert(!pred(self.interiors@[i as int]));
                    }
                    if 0 <= f < i {
                        assert(!pred(self.interiors@[f]));
                    }
                    if f == -1 {
                        assert(!pred(self.interiors@[i as int]));
                    }
                }
                return Some(i);
            }
            i = i + 1;
        }
        proof {
            lemma_first_match(self.interiors@, pred);
            let f = first_match(self.interiors@, pred);
            if f >= 0 {
                assert(pred(self.interiors@[f]));
            }
        }
        None
    }

    /// The index of the exterior at the given coordinates.
    pub fn find_exterior(&self, coords: (i32, i32)) -> (r: Option<usize>)
        ensures
            r matches Some(i) ==> i == find_exterior_spec(self.exteriors@, coords),
            r is None ==> find_exterior_spec(self.exteriors@, coords) == -1,
    {
        let ghost pred = |e: ExteriorEntry| e.coords == coords;
        proof {
            lemma_first_match(self.exteriors@, pred);
        }
        let mut i: usize = 0;
        while i < self.exteriors.len()
            invariant
                i <= self.exteriors@.len(),
                pred == (|e: ExteriorEntry| e.coords == coords),
                forall|j: int| 0 <= j < i ==> !pred(#[trigger] self.exteriors@[j]),
            decreases self.exteriors@.len() - i,
        {
            let c = &self.exteriors[i].coords;
            if c.0 == coords.0 && c.1 == coords.1 {
                proof {
                    lemma_first_match(self.exteriors@, pred);
                    let f = first_match(self.exteriors@, pred);
                    assert(pred(self.exteriors@[i as int]));
                    if f > i {
                        assert(!pred(self.exteriors@[i as int]));
                    }
                    if 0 <= f < i {
                        assert(!pred(self.exteriors@[f]));
                    }
                    if f == -1 {
                        assert(!pred(self.exteriors@[i as int]));
                    }
                }
                return Some(i);
            }
            i = i + 1;
        }
        proof {
            lemma_first_match(self.exteriors@, pred);
            let f = first_match(self.exteriors@, pred);
            if f >= 0 {
                assert(pred(self.exteriors@[f]));
            }
        }
        None
    }

    /// The index of the interior with the given lowercased name, creating an
    /// empty slot for it when absent.
    pub fn get_or_create_interior(&mut self, name: &Vec<u8>) -> (r: usize)
        ensures
            final (self).exteriors@ == old(self).exteriors@,
            r < final (self).interiors@.len(),
            final (self).interiors@[r as int].name@ == name@,
            if find_interior_spec(old(self).interiors@, name@) >= 0 {
                final (self).interiors@ == old(self).interiors@ && r == find_interior_spec(
                    old(self).interiors@,
                    name@,
                )
            } else {
                final (self).interiors@ == old(self).interiors@.push(
                    InteriorEntry {
                        name: final (self).interiors@[r as int].name,
                        slot: Interior { cell: None, pathgrid: None },
                    },
                ) && r == old(self).interiors@.len()
            },
            interiors_wf(old(self).interiors@) ==> interiors_wf(final (self).interiors@),
    {
        let ghost s0 = self.interiors@;
        match self.find_interior(name) {
            Some(i) => {
                proof {
                    lemma_first_match(s0, |e: InteriorEntry| e.name@ == name@);
                }
                i
            },
            None => {
                let entry = InteriorEntry {
                    name: crate::ids::dup_bytes(name),
                    slot: Interior { cell: None, pathgrid: None },
                };
                self.interiors.push(entry);
                proof {
                    let ghost pred = |e: InteriorEntry| e.name@ == name@;
                    lemma_first_match(s0, pred);
                    assert forall|i: int, j: int|
                        0 <= i < j < self.interiors@.len() && interiors_wf(s0) implies (
                    #[trigger] self.interiors@[i]).name@ != (#[trigger] self.interiors@[j]).name@ by {
                        if j == self.interiors@.len() - 1 {
                            assert(!pred(s0[i]));
                        }
                    }
                }
                self.interiors.len() - 1
            },
        }
    }

    /// The index of the exterior at the given coordinates, creating an empty
    /// slot for it when absent.
    pub fn get_or_create_exterior(&mut self, coords: (i32, i32)) -> (r: usize)
        ensures
            final (self).interiors@ == old(self).interiors@,
            r < final (self).exteriors@.len(),
            final (self).exteriors@[r as int].coords == coords,
            if find_exterior_spec(old(self).exteriors@, coords) >= 0 {
                final (self).exteriors@ == old(self).exteriors@ && r == find_exterior_spec(
                    old(self).exteriors@,
                    coords,
                )
            } else {
                final (self).exteriors@ == old(self).exteriors@.push(
                    ExteriorEntry {
                        coords,
                        slot: Exterior { cell: None, landscape: None, pathgrid: None },
                    },
                ) && r == old(self).exteriors@.len()
            },
            exteriors_wf(old(self).exteriors@) ==> exteriors_wf(final (self).exteriors@),
    {
        let ghost s0 = self.exteriors@;
        match self.find_exterior(coords) {
            Some(i) => {
                proof {
                    lemma_first_match(s0, |e: ExteriorEntry| e.coords == coords);
                }
                i
            },
            None => {
                let entry = ExteriorEntry {
                    coords,
                    slot: Exterior { cell: None, landscape: None, pathgrid: None },
                };
                self.exteriors.push(entry);
                proof {
                    let ghost pred = |e: ExteriorEntry| e.coords == coords;
                    lemma_first_match(s0, pred);
                    assert forall|i: int, j: int|
                        0 <= i < j < self.exteriors@.len() && exteriors_wf(s0) implies (
                    #[trigger] self.exteriors@[i]).coords != (
                    #[trigger] self.exteriors@[j]).coords by {
                        if j == self.exteriors@.len() - 1 {
                            assert(!pred(s0[i]));
                        }
                    }
                }
                self.exteriors.len() - 1
            },
        }
    }

    /// Installs `c` as the cell of interior `i`.
    pub fn set_interior_cell(&mut self, i: usize, c: CellData)
        requires
            i < old(self).interiors@.len(),
        ensures
            final (self).exteriors@ == old(self).exteriors@,
            final (self).interiors@ == old(self).interiors@.update(
                i as int,
                InteriorEntry {
                    name: old(self).interiors@[i as int].name,
                    slot: Interior { cell: Some(c), pathgrid: old(self).interiors@[i as int].slot.pathgrid },
                },
            ),
    {
        let ghost s0 = self.interiors@;
        let mut entry = self.interiors.remove(i);
        entry.slot.cell = Some(c);
        self.interiors.insert(i, entry);
        proof {
            assert(self.interiors@ =~= s0.update(
                i as int,
                InteriorEntry {
                    name: s0[i as int].name,
                    slot: Interior { cell: self.interiors@[i as int].slot.cell, pathgrid: s0[i as int].slot.pathgrid },
                },
            ));
        }
    }

    /// Installs `p` as the path grid of interior `i`.
    pub fn set_interior_pathgrid(&mut self, i: usize, p: PathGridData)
        requires
            i < old(self).interiors@.len(),
        ensures
            final (self).exteriors@ == old(self).exteriors@,
            final (self).interiors@ == old(self).interiors@.update(
                i as int,
                InteriorEntry {
                    name: old(self).interiors@[i as int].name,
                    slot: Interior { cell: old(self).interiors@[i as int].slot.cell, pathgrid: Some(p) },
                },
            ),
    {
        let ghost s0 = self.interiors@;
        let mut entry = self.interiors.remove(i);
        entry.slot.pathgrid = Some(p);
        self.interiors.insert(i, entry);
        proof {
            assert(self.interiors@ =~= s0.update(
                i as int,
                InteriorEntry {
                    name: s0[i as int].name,
                    slot: Interior { cell: s0[i as int].slot.cell, pathgrid: self.interiors@[i as int].slot.pathgrid },
                },
            ));
        }
    }

    /// Installs `c` as the cell of exterior `i`.
    pub fn set_exterior_cell(&mut self, i: usize, c: CellData)
        requires
            i < old(self).exteriors@.len(),
        ensures
            final (self).interiors@ == old(self).interiors@,
            final (self).exteriors@ == old(self).exteriors@.update(
                i as int,
                ExteriorEntry {
                    coords: old(self).exteriors@[i as int].coords,
                    slot: Exterior {
                        cell: Some(c),
                        landscape: old(self).exteriors@[i as int].slot.landscape,
                        pathgrid: old(self).exteriors@[i as int].slot.pathgrid,
                    },
                },
            ),
    {
        let ghost s0 = self.exteriors@;
        let mut entry = self.exteriors.remove(i);
        entry.slot.cell = Some(c);
        self.exteriors.insert(i, entry);
        proof {
            assert(self.exteriors@ =~= s0.update(
                i as int,
                ExteriorEntry {
                    coords: s0[i as int].coords,
                    slot: Exterior {
                        cell: self.exteriors@[i as int].slot.cell,
                        landscape: s0[i as int].slot.landscape,
                        pathgrid: s0[i as int].slot.pathgrid,
                    },
                },
            ));
        }
    }

    /// Installs `l` as the landscape of exterior `i`.
    pub fn set_exterior_landscape(&mut self, i: usize, l: LandscapeData)
        requires
            i < old(self).exteriors@.len(),
        ensures
            final (self).interiors@ == old(self).interiors@,
            final (self).exteriors@ == old(self).exteriors@.update(
                i as int,
                ExteriorEntry {
                    coords: old(self).exteriors@[i as int].coords,
                    slot: Exterior {
                        cell: old(self).exteriors@[i as int].slot.cell,
                        landscape: Some(l),
                        pathgrid: old(self).exteriors@[i as int].slot.pathgrid,
                    },
                },
            ),
    {
        let ghost s0 = self.exteriors@;
        let mut entry = self.exteriors.remove(i);
        entry.slot.landscape = Some(l);
        self.exteriors.insert(i, entry);
        proof {
            assert(self.exteriors@ =~= s0.update(
                i as int,
                ExteriorEntry {
                    coords: s0[i as int].coords,
                    slot: Exterior {
                        cell: s0[i as int].slot.cell,
                        landscape: self.exteriors@[i as int].slot.landscape,
                        pathgrid: s0[i as int].slot.pathgrid,
                    },
                },
            ));
        }
    }

    /// Installs `p` as the path grid of exterior `i`.
    pub fn set_exterior_pathgrid(&mut self, i: usize, p: PathGridData)
        requires
            i < old(self).exteriors@.len(),
        ensures
            final (self).interiors@ == old(self).interiors@,
            final (self).exteriors@ == old(self).exteriors@.update(
                i as int,
                ExteriorEntry {
                    coords: old(self).exteriors@[i as int].coords,
                    slot: Exterior {
                        cell: old(self).exteriors@[i as int].slot.cell,
                        landscape: old(self).exteriors@[i as int].slot.landscape,
                        pathgrid: Some(p),
                    },
                },
            ),
    {
        let ghost s0 = self.exteriors@;
        let mut entry = self.exteriors.remove(i);
        entry.slot.pathgrid = Some(p);
        self.exteriors.insert(i, entry);
        proof {
            assert(self.exteriors@ =~= s0.update(
                i as int,
                ExteriorEntry {
                    coords: s0[i as int].coords,
                    slot: Exterior {
                        cell: s0[i as int].slot.cell,
                        landscape: s0[i as int].slot.landscape,
                        pathgrid: self.exteriors@[i as int].slot.pathgrid,
                    },
                },
            ));
        }
    }
}

} // verus!
