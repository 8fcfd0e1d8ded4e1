use merge_to_master::cells::{CellData, Cells, Exterior, ExteriorEntry, Interior, InteriorEntry,
    LandscapeData, PathGridData, RefEntry};
use merge_to_master::collect::StreamRecord;
use merge_to_master::deletions::{DeletionMap, FLAG_PHYSICAL, FLAG_SCRIPT};
use merge_to_master::dialogue::{DialogueGroup, DialogueKind, DialogueRecord, InfoRecord};
use merge_to_master::ids::{eq_ignore_case, to_lowercase};
use merge_to_master::masters::{Header, MasterEntry, MergeError};
use merge_to_master::objects::Objects;
use merge_to_master::plugin::PluginData;
use merge_to_master::records::{ObjectBody, ObjectRecord};
use merge_to_master::MergeOptions;

fn b(s: &str) -> Vec<u8> {
    s.as_bytes().to_vec()
}

fn info(id: &str, prev: &str, next: &str) -> InfoRecord {
    InfoRecord {
        id: b(id),
        prev_id: b(prev),
        next_id: b(next),
        deleted: false,
        ignored: false,
        payload: 0,
    }
}

fn group(topic: &str, infos: Vec<InfoRecord>) -> DialogueGroup {
    DialogueGroup {
        dialogue: DialogueRecord {
            id: b(topic),
            kind: DialogueKind::Topic,
            deleted: false,
            ignored: false,
            payload: 0,
        },
        infos,
    }
}

fn ids_of(g: &DialogueGroup) -> Vec<Vec<u8>> {
    g.infos.iter().map(|i| i.id.clone()).collect()
}

fn reference(m: u32, r: u32, id: &str) -> RefEntry {
    RefEntry {
        mast_index: m,
        refr_index: r,
        id: b(id),
        deleted: false,
        moved_cell: None,
        translation: (0, 0, 0),
        rotation: (0, 0, 0),
        scale: None,
        payload: 0,
    }
}

fn exterior_cell(x: i32, y: i32, refs: Vec<RefEntry>) -> CellData {
    CellData {
        name: b(""),
        deleted: false,
        ignored: false,
        is_interior: false,
        grid: (x, y),
        region: None,
        map_color: None,
        water_height_bits: None,
        atmosphere_payload: None,
        data_payload: 0,
        references: refs,
    }
}

fn interior_cell(name: &str, refs: Vec<RefEntry>) -> CellData {
    CellData {
        name: b(name),
        deleted: false,
        ignored: false,
        is_interior: true,
        grid: (0, 0),
        region: None,
        map_color: None,
        water_height_bits: None,
        atmosphere_payload: None,
        data_payload: 0,
        references: refs,
    }
}

fn object(id: &str, body: ObjectBody) -> ObjectRecord {
    ObjectRecord { id: b(id), deleted: false, ignored: false, payload: 0, body }
}

fn empty_plugin() -> PluginData {
    PluginData::new()
}

#[test]
fn lowercase_and_case_insensitive_compare() {
    assert_eq!(to_lowercase(&b("Iron_Dagger")), b("iron_dagger"));
    assert!(eq_ignore_case(&b("Balmora"), &b("BALMORA")));
    assert!(!eq_ignore_case(&b("Balmora"), &b("Caldera")));
}

#[test]
fn default_options_run_every_optional_pass_off() {
    let options = MergeOptions::default();
    assert!(!options.remove_deleted);
    assert!(!options.apply_moved_references);
    assert!(!options.preserve_duplicate_references);
}

#[test]
fn info_insert_empty() {
    let mut g = group("latest rumors", vec![]);
    g.insert_info(info("10", "", ""));
    assert_eq!(ids_of(&g), vec![b("10")]);
}

#[test]
fn info_insert_front() {
    let mut g = group("latest rumors", vec![info("10", "", "20"), info("20", "10", "")]);
    g.insert_info(info("5", "", ""));
    g.repair_links();
    assert_eq!(ids_of(&g), vec![b("5"), b("10"), b("20")]);
    assert_eq!(g.infos[0].next_id, b("10"));
    assert_eq!(g.infos[1].prev_id, b("5"));
}

#[test]
fn info_insert_middle() {
    let mut g = group("latest rumors", vec![info("10", "", "20"), info("20", "10", "")]);
    g.insert_info(info("15", "10", ""));
    g.repair_links();
    assert_eq!(ids_of(&g), vec![b("10"), b("15"), b("20")]);
    assert_eq!(g.infos[0].next_id, b("15"));
    assert_eq!(g.infos[2].prev_id, b("15"));
}

#[test]
fn info_insert_end() {
    // The named predecessor is absent, so the info lands at the back.
    let mut g = group("latest rumors", vec![info("10", "", "20"), info("20", "10", "")]);
    g.insert_info(info("30", "99", ""));
    g.repair_links();
    assert_eq!(ids_of(&g), vec![b("10"), b("20"), b("30")]);
    assert_eq!(g.infos[2].prev_id, b("20"));
}

#[test]
fn info_insert_replacing() {
    // Same id, same predecessor: replaced in place, order untouched.
    let mut g = group("latest rumors", vec![info("10", "", "20"), info("20", "10", "")]);
    let mut replacement = info("20", "10", "");
    replacement.payload = 7;
    g.insert_info(replacement);
    assert_eq!(ids_of(&g), vec![b("10"), b("20")]);
    assert_eq!(g.infos[1].payload, 7);
}

#[test]
fn info_preserve_gaps() {
    // The front's prev link and the back's next link survive repair: they
    // may anchor the chain to records outside this file.
    let mut g = group(
        "latest rumors",
        vec![info("10", "0utside", "99"), info("30", "10", "outside2")],
    );
    g.insert_info(info("20", "10", ""));
    g.repair_links();
    assert_eq!(ids_of(&g), vec![b("10"), b("20"), b("30")]);
    assert_eq!(g.infos[0].prev_id, b("0utside"));
    assert_eq!(g.infos[2].next_id, b("outside2"));
    assert_eq!(g.infos[0].next_id, b("20"));
    assert_eq!(g.infos[1].prev_id, b("10"));
    assert_eq!(g.infos[1].next_id, b("30"));
    assert_eq!(g.infos[2].prev_id, b("20"));
}

#[test]
fn info_delete_front() {
    let mut g = group(
        "latest rumors",
        vec![info("10", "x", "20"), info("20", "10", "30"), info("30", "20", "y")],
    );
    g.infos[0].deleted = true;
    g.remove_deleted_infos();
    assert_eq!(ids_of(&g), vec![b("20"), b("30")]);
    // The deleted front no longer anchors the chain outward.
    assert_eq!(g.infos[0].prev_id, b(""));
    assert_eq!(g.infos[1].next_id, b("y"));
}

#[test]
fn info_delete_end() {
    let mut g = group(
        "latest rumors",
        vec![info("10", "x", "20"), info("20", "10", "30"), info("30", "20", "y")],
    );
    g.infos[2].deleted = true;
    g.remove_deleted_infos();
    assert_eq!(ids_of(&g), vec![b("10"), b("20")]);
    assert_eq!(g.infos[0].prev_id, b("x"));
    assert_eq!(g.infos[1].next_id, b(""));
}

#[test]
fn info_delete_middle() {
    let mut g = group(
        "latest rumors",
        vec![info("10", "x", "20"), info("20", "10", "30"), info("30", "20", "y")],
    );
    g.infos[1].deleted = true;
    g.remove_deleted_infos();
    assert_eq!(ids_of(&g), vec![b("10"), b("30")]);
    assert_eq!(g.infos[0].next_id, b("30"));
    assert_eq!(g.infos[1].prev_id, b("10"));
    assert_eq!(g.infos[0].prev_id, b("x"));
    assert_eq!(g.infos[1].next_id, b("y"));
}

#[test]
fn info_delete_middle_2() {
    let mut g = group(
        "latest rumors",
        vec![
            info("10", "x", "20"),
            info("20", "10", "30"),
            info("30", "20", "40"),
            info("40", "30", "y"),
        ],
    );
    g.infos[1].deleted = true;
    g.infos[2].deleted = true;
    g.remove_deleted_infos();
    assert_eq!(ids_of(&g), vec![b("10"), b("40")]);
    assert_eq!(g.infos[0].next_id, b("40"));
    assert_eq!(g.infos[1].prev_id, b("10"));
}

#[test]
fn merging_an_empty_plugin_changes_no_bucket() {
    let plugin = empty_plugin();
    let mut master = empty_plugin();
    master.objects.insert(object("gold_001", ObjectBody::MiscItem { script: b("") }));
    master.dialogues.upsert_dialogue_record(
        &b("latest rumors"),
        DialogueRecord {
            id: b("latest rumors"),
            kind: DialogueKind::Topic,
            deleted: false,
            ignored: false,
            payload: 0,
        },
    );
    let objects_before = master.objects.entries.len();
    let dialogues_before = master.dialogues.entries.len();
    plugin.merge_into(&mut master);
    assert_eq!(master.objects.entries.len(), objects_before);
    assert_eq!(master.dialogues.entries.len(), dialogues_before);
    assert_eq!(master.objects.entries[0].id, b("gold_001"));
}

#[test]
fn merge_replaces_objects_and_extends_cells() {
    let mut plugin = empty_plugin();
    let mut master = empty_plugin();

    master.objects.insert(object("gold_001", ObjectBody::MiscItem { script: b("old") }));
    plugin.objects.insert(object("Gold_001", ObjectBody::MiscItem { script: b("new") }));

    // The master knows cell (1, 1); the plugin adds a reference to it and
    // brings a whole new cell (2, 2).
    let i = master.cells.get_or_create_exterior((1, 1));
    master.cells.set_exterior_cell(i, exterior_cell(1, 1, vec![reference(1, 7, "chair")]));
    let j = plugin.cells.get_or_create_exterior((1, 1));
    plugin.cells.set_exterior_cell(j, exterior_cell(1, 1, vec![reference(0, 9, "table")]));
    let k = plugin.cells.get_or_create_exterior((2, 2));
    plugin.cells.set_exterior_cell(k, exterior_cell(2, 2, vec![]));

    plugin.merge_into(&mut master);

    assert_eq!(master.objects.entries.len(), 1);
    match &master.objects.entries[0].body {
        ObjectBody::MiscItem { script } => assert_eq!(script, &b("new")),
        _ => panic!("wrong kind"),
    }
    assert_eq!(master.cells.exteriors.len(), 2);
    let merged = master.cells.exteriors[0].slot.cell.as_ref().unwrap();
    assert_eq!(merged.references.len(), 2);
    assert_eq!(merged.references[0].id, b("chair"));
    assert_eq!(merged.references[1].id, b("table"));
}

#[test]
fn remap_masters_renumbers_local_references() {
    // Plugin lists [A, Master]; the target master lists nothing. The local
    // reference is renumbered past the master's own locals, the reference
    // into A is re-pointed at A's new 1-based position.
    let mut plugin = empty_plugin();
    plugin.header.masters.push(MasterEntry { name: b("A.esm"), size: 10 });
    plugin.header.masters.push(MasterEntry { name: b("Master.esm"), size: 20 });
    let i = plugin.cells.get_or_create_exterior((0, 0));
    plugin.cells.set_exterior_cell(
        i,
        exterior_cell(0, 0, vec![reference(0, 1, "crate"), reference(1, 7, "barrel")]),
    );

    let mut master = empty_plugin();
    let j = master.cells.get_or_create_exterior((0, 0));
    master.cells.set_exterior_cell(j, exterior_cell(0, 0, vec![reference(0, 4, "rock")]));

    let _ = plugin.remap_masters(&master, &b("Master.esm"));

    assert_eq!(plugin.header.masters.len(), 1);
    assert_eq!(plugin.header.masters[0].name, b("A.esm"));
    let cell = plugin.cells.exteriors[0].slot.cell.as_ref().unwrap();
    // The local reference is renumbered to the master's next free index 5.
    assert_eq!(cell.references[0].mast_index, 0);
    assert_eq!(cell.references[0].refr_index, 5);
    // The reference into A now uses A's position in the merged list.
    assert_eq!(cell.references[1].mast_index, 1);
    assert_eq!(cell.references[1].refr_index, 7);
}

#[test]
fn texture_remap_follows_the_master_and_rewrites_landscapes() {
    let mut plugin = empty_plugin();
    plugin.objects.insert(object("tx_grass", ObjectBody::LandscapeTexture { index: 0 }));
    plugin.objects.insert(object("tx_rock", ObjectBody::LandscapeTexture { index: 1 }));
    let i = plugin.cells.get_or_create_exterior((0, 0));
    plugin.cells.set_exterior_landscape(
        i,
        LandscapeData {
            deleted: false,
            ignored: false,
            grid: (0, 0),
            texture_indices: vec![0, 1, 2, 2],
            payload: 0,
        },
    );

    let mut master = empty_plugin();
    master.objects.insert(object("tx_rock", ObjectBody::LandscapeTexture { index: 4 }));

    let _ = plugin.remap_textures(&master);

    // tx_rock takes the master's index; tx_grass gets a fresh one past it.
    let mut grass = None;
    let mut rock = None;
    for e in &plugin.objects.entries {
        if let ObjectBody::LandscapeTexture { index } = &e.body {
            if e.id == b("tx_grass") {
                grass = Some(*index);
            }
            if e.id == b("tx_rock") {
                rock = Some(*index);
            }
        }
    }
    assert_eq!(rock, Some(4));
    assert_eq!(grass, Some(5));
    let land = plugin.cells.exteriors[0].slot.landscape.as_ref().unwrap();
    // Stored values are logical index + 1; 0 stays "no texture".
    assert_eq!(land.texture_indices, vec![0, 6, 5, 5]);
}

#[test]
fn remove_deleted_scrubs_objects_and_references() {
    let mut pd = empty_plugin();
    let mut dead = object("rusty_sword", ObjectBody::Weapon { script: b(""), enchanting: b("") });
    dead.deleted = true;
    pd.objects.insert(dead);
    let mut dead_script = object("oldscript", ObjectBody::Script);
    dead_script.deleted = true;
    pd.objects.insert(dead_script);
    pd.objects.insert(object(
        "guard",
        ObjectBody::Npc {
            script: b("OldScript"),
            inventory: vec![],
            spells: vec![],
            ai_packages: vec![],
            travel_destinations: vec![],
            race: b("nord"),
            class: b("warrior"),
            faction: b(""),
            head: b(""),
            hair: b(""),
        },
    ));
    let i = pd.cells.get_or_create_exterior((0, 0));
    pd.cells.set_exterior_cell(
        i,
        exterior_cell(0, 0, vec![reference(0, 1, "Rusty_Sword"), reference(0, 2, "chair")]),
    );

    let _ = pd.remove_deleted();

    assert_eq!(pd.objects.entries.len(), 1);
    match &pd.objects.entries[0].body {
        ObjectBody::Npc { script, race, .. } => {
            // The dangling script is cleared; the race is left alone.
            assert_eq!(script, &b(""));
            assert_eq!(race, &b("nord"));
        },
        _ => panic!("wrong kind"),
    }
    let cell = pd.cells.exteriors[0].slot.cell.as_ref().unwrap();
    assert_eq!(cell.references.len(), 1);
    assert_eq!(cell.references[0].id, b("chair"));
}

#[test]
fn deletion_map_accumulates_kind_bits() {
    let mut map = DeletionMap::new();
    map.add(b("sword"), FLAG_PHYSICAL);
    map.add(b("sword"), FLAG_SCRIPT);
    assert!(map.hits(&b("SWORD"), FLAG_PHYSICAL));
    assert!(map.hits(&b("sword"), FLAG_SCRIPT));
    assert!(!map.hits(&b("shield"), FLAG_PHYSICAL));
}

#[test]
fn moved_references_land_in_their_declared_cell() {
    let mut cells = Cells::new();
    let i = cells.get_or_create_exterior((0, 0));
    let mut moved = reference(0, 5, "cart");
    moved.moved_cell = Some((1, 0));
    cells.set_exterior_cell(i, exterior_cell(0, 0, vec![moved]));
    let j = cells.get_or_create_exterior((1, 0));
    cells.set_exterior_cell(j, exterior_cell(1, 0, vec![]));

    cells.apply_moved_references();

    let src = cells.exteriors[0].slot.cell.as_ref().unwrap();
    let dst = cells.exteriors[1].slot.cell.as_ref().unwrap();
    assert_eq!(src.references.len(), 0);
    assert_eq!(dst.references.len(), 1);
    assert_eq!(dst.references[0].id, b("cart"));
    assert_eq!(dst.references[0].moved_cell, None);
}

#[test]
fn duplicate_references_collapse_to_one_survivor() {
    let mut cell = exterior_cell(
        0,
        0,
        vec![reference(0, 1, "fern"), reference(0, 2, "FERN"), reference(0, 3, "fern")],
    );
    // References 0 and 1 coincide; 2 stands apart.
    let matches = vec![
        vec![false, true, false],
        vec![true, false, false],
        vec![false, false, false],
    ];
    let _ = cell.remove_duplicate_references(&matches);
    assert_eq!(cell.references.len(), 2);
    assert_eq!(cell.references[0].refr_index, 2);
    assert_eq!(cell.references[1].refr_index, 3);
}

#[test]
fn collect_partitions_a_stream() {
    let mut pd = empty_plugin();
    let records = vec![
        StreamRecord::Object(object("gold_001", ObjectBody::MiscItem { script: b("") })),
        StreamRecord::Cell(interior_cell("Balmora, South Wall", vec![])),
        StreamRecord::Dialogue(DialogueRecord {
            id: b("latest rumors"),
            kind: DialogueKind::Topic,
            deleted: false,
            ignored: false,
            payload: 0,
        }),
        StreamRecord::Info(info("10", "", "")),
        // An orphan path grid at (0, 0) with a cell name joins that interior.
        StreamRecord::PathGrid(PathGridData {
            deleted: false,
            ignored: false,
            cell: b("Vivec, Hideout"),
            grid: (0, 0),
            payload: 0,
        }),
    ];
    pd.collect_objects(records);

    assert_eq!(pd.objects.entries.len(), 1);
    assert_eq!(pd.cells.interiors.len(), 2);
    assert_eq!(pd.cells.interiors[0].name, b("balmora, south wall"));
    assert_eq!(pd.cells.interiors[1].name, b("vivec, hideout"));
    assert!(pd.cells.interiors[1].slot.pathgrid.is_some());
    assert_eq!(pd.dialogues.entries.len(), 1);
    assert_eq!(pd.dialogues.entries[0].key, b("latest rumors"));
    assert_eq!(pd.dialogues.entries[0].group.infos.len(), 1);
}

#[test]
fn ensure_master_present_appends_or_refuses() {
    let mut header = Header { masters: vec![], payload: 0 };
    assert!(header.ensure_master_present(&b("Master.esm"), 42).is_ok());
    assert_eq!(header.masters.len(), 1);
    assert_eq!(header.masters[0].size, 42);

    // Present and last: fine.
    assert!(header.ensure_master_present(&b("MASTER.ESM"), 42).is_ok());
    assert_eq!(header.masters.len(), 1);

    // Present but not last: the merge is refused.
    header.masters.push(MasterEntry { name: b("Other.esm"), size: 1 });
    assert_eq!(
        header.ensure_master_present(&b("Master.esm"), 42),
        Err(MergeError::MasterNotLast)
    );
}

#[test]
fn ignored_records_join_passes_but_not_output() {
    let mut pd = empty_plugin();
    pd.objects.insert(object("gold_001", ObjectBody::MiscItem { script: b("") }));
    let i = pd.cells.get_or_create_interior(&b("balmora, south wall"));
    pd.cells.set_interior_cell(i, interior_cell("Balmora, South Wall", vec![]));
    pd.set_all_ignored(true);
    assert!(pd.objects.entries[0].ignored);
    pd.remove_ignored();
    assert_eq!(pd.objects.entries.len(), 0);
    assert_eq!(pd.cells.interiors.len(), 0);
}

#[test]
fn next_indices_count_past_the_highest() {
    let mut pd = empty_plugin();
    assert_eq!(pd.next_reference_index(), 1);
    assert_eq!(pd.next_texture_index(), None);
    let i = pd.cells.get_or_create_exterior((0, 0));
    pd.cells.set_exterior_cell(
        i,
        exterior_cell(0, 0, vec![reference(0, 9, "rock"), reference(2, 30, "far")]),
    );
    pd.objects.insert(object("tx_a", ObjectBody::LandscapeTexture { index: 3 }));
    assert_eq!(pd.next_reference_index(), 10);
    assert_eq!(pd.next_texture_index(), Some(4));
}

#[test]
fn merged_group_repairs_its_chain() {
    let mut target = group("latest rumors", vec![info("10", "", "20"), info("20", "10", "")]);
    let incoming = group("latest rumors", vec![info("15", "10", "")]);
    incoming.merge_into(&mut target);
    assert_eq!(ids_of(&target), vec![b("10"), b("15"), b("20")]);
    assert_eq!(target.infos[0].next_id, b("15"));
    assert_eq!(target.infos[1].prev_id, b("10"));
    assert_eq!(target.infos[1].next_id, b("20"));
    assert_eq!(target.infos[2].prev_id, b("15"));
}

#[test]
fn object_bucket_keys_ignore_case_and_share_physical_space() {
    let mut objects = Objects::new();
    objects.insert(object("Sword", ObjectBody::Weapon { script: b(""), enchanting: b("") }));
    // A misc item with the same id lands on the same shared key.
    objects.insert(object("SWORD", ObjectBody::MiscItem { script: b("x") }));
    assert_eq!(objects.entries.len(), 1);
    match &objects.entries[0].body {
        ObjectBody::MiscItem { script } => assert_eq!(script, &b("x")),
        _ => panic!("wrong kind"),
    }
    // A non-physical kind with the same id keeps its own key.
    objects.insert(object("sword", ObjectBody::Script));
    assert_eq!(objects.entries.len(), 2);
}

#[test]
fn output_order_puts_journals_first_then_ids() {
    let mut pd = empty_plugin();
    for (name, kind) in [
        ("zz topic", DialogueKind::Topic),
        ("aa greeting", DialogueKind::Greeting),
        ("my journal", DialogueKind::Journal),
        ("aa topic", DialogueKind::Topic),
    ] {
        pd.dialogues.upsert_dialogue_record(
            &b(name),
            DialogueRecord {
                id: b(name),
                kind,
                deleted: false,
                ignored: false,
                payload: 0,
            },
        );
    }
    let (ordered, _) = pd.dialogues.into_output_order();
    let names: Vec<Vec<u8>> = ordered.iter().map(|e| e.group.dialogue.id.clone()).collect();
    assert_eq!(
        names,
        vec![b("my journal"), b("aa topic"), b("zz topic"), b("aa greeting")]
    );
}

#[test]
fn moved_reference_replaces_the_key_it_lands_on() {
    let mut cells = Cells::new();
    let i = cells.get_or_create_exterior((0, 0));
    let mut moved = reference(0, 5, "cart");
    moved.moved_cell = Some((1, 0));
    cells.set_exterior_cell(i, exterior_cell(0, 0, vec![moved]));
    let j = cells.get_or_create_exterior((1, 0));
    cells.set_exterior_cell(j, exterior_cell(1, 0, vec![reference(0, 5, "old cart")]));

    cells.apply_moved_references();

    let dst = cells.exteriors[1].slot.cell.as_ref().unwrap();
    assert_eq!(dst.references.len(), 1);
    assert_eq!(dst.references[0].id, b("cart"));
    assert_eq!(dst.references[0].refr_index, 5);
}

#[test]
fn only_coinciding_duplicates_are_removed() {
    let mut cell = exterior_cell(
        0,
        0,
        vec![reference(0, 1, "fern"), reference(0, 2, "fern"), reference(0, 3, "fern")],
    );
    // No pair coincides: everything stays.
    let matches = vec![
        vec![false, false, false],
        vec![false, false, false],
        vec![false, false, false],
    ];
    let _ = cell.remove_duplicate_references(&matches);
    assert_eq!(cell.references.len(), 3);
}
