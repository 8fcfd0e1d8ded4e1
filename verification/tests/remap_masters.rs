use merge_to_master::masters::{MasterEntry, get_index_remap};

fn masters_vec(master_names: &[&str]) -> Vec<MasterEntry> {
    master_names
        .iter()
        .map(|&name| MasterEntry { name: name.as_bytes().to_vec(), size: 0 })
        .collect()
}

fn target(name: &str) -> Vec<u8> {
    name.as_bytes().to_vec()
}

#[test]
fn remap_masters_no_masters() {
    let plugin_masters = masters_vec(&[]);
    let master_masters = masters_vec(&[]);
    let (masters, indices) = get_index_remap(&plugin_masters, &master_masters, &target(""));
    assert_eq!(masters, None);
    assert_eq!(indices, None);
}

#[test]
fn remap_masters_one_identical_master() {
    let plugin_masters = masters_vec(&["A"]);
    let master_masters = masters_vec(&["A"]);
    let (masters, indices) = get_index_remap(&plugin_masters, &master_masters, &target(""));
    assert_eq!(masters, None);
    assert_eq!(indices, None);
}

#[test]
fn remap_masters_many_identical_masters() {
    let plugin_masters = masters_vec(&["A", "B", "C"]);
    let master_masters = masters_vec(&["A", "B", "C"]);
    let (masters, indices) = get_index_remap(&plugin_masters, &master_masters, &target(""));
    assert_eq!(masters, None);
    assert_eq!(indices, None);
}

#[test]
fn remap_masters_one_mismatched_master() {
    let plugin_masters = masters_vec(&["A"]);
    let master_masters = masters_vec(&["B"]);
    let (masters, indices) = get_index_remap(&plugin_masters, &master_masters, &target(""));

    // The new master gets appended onto the initial master list.
    assert_eq!(masters, Some(masters_vec(&["B", "A"])));

    // Plugin references at index 1 should get shifted to index 2.
    assert_eq!(indices, Some(vec![0, 2]));
}

#[test]
fn remap_masters_many_mismatched_masters() {
    let plugin_masters = masters_vec(&["A", "B", "C"]);
    let master_masters = masters_vec(&["D", "E", "F"]);
    let (masters, indices) = get_index_remap(&plugin_masters, &master_masters, &target(""));

    // The new masters get appended onto the initial master list.
    assert_eq!(masters, Some(masters_vec(&["D", "E", "F", "A", "B", "C"])));

    // The reference indices get shifted over to stay consistent.
    assert_eq!(indices, Some(vec![0, 4, 5, 6]));
}

#[test]
fn remap_masters_some_mismatched_masters() {
    let plugin_masters = masters_vec(&["A", "B", "C", "D"]);
    let master_masters = masters_vec(&["A", "E", "C", "F"]);
    let (masters, indices) = get_index_remap(&plugin_masters, &master_masters, &target(""));

    // The new masters ("B", "D") get appended onto the initial master list.
    assert_eq!(masters, Some(masters_vec(&["A", "E", "C", "F", "B", "D"])));

    // 0 = reserved
    // 1 = "A" was unchanged, it was at position 1 of both lists
    // 5 = "B" has moved, it's now at position 5 in the new list
    // 3 = "C" has moved, it's now at position 3 in the new list
    // 6 = "D" has moved, it's now at position 6 in the new list
    assert_eq!(indices, Some(vec![0, 1, 5, 3, 6]));
}

#[test]
fn remap_masters_plugin_merging_into_master() {
    let plugin_masters = masters_vec(&["A", "B", "C"]);
    let master_masters = masters_vec(&["A", "D"]);
    let (masters, indices) = get_index_remap(&plugin_masters, &master_masters, &target("B"));

    // Target is omitted from the master list. It cannot be a master of itself.
    assert_eq!(masters, Some(masters_vec(&["A", "D", "C"])));

    // 0 = reserved
    // 1 = "A" was unchanged, it was at position 1 of both lists
    // 0 = "B" is the target master so it is moved to position 0
    // 3 = "C" was unchanged, it was at position 3 of both lists
    assert_eq!(indices, Some(vec![0, 1, 0, 3]));
}

#[test]
fn remap_masters_mismatched_masters_of_consistent_order() {
    let plugin_masters = masters_vec(&["A", "B"]);
    let master_masters = masters_vec(&["A", "B", "C"]);
    let (masters, indices) = get_index_remap(&plugin_masters, &master_masters, &target(""));
    assert_eq!(masters, None);
    assert_eq!(indices, None);
}

#[test]
fn remap_masters_mismatched_masters_of_consistent_order_inv() {
    let plugin_masters = masters_vec(&["A", "B", "C"]);
    let master_masters = masters_vec(&["A", "B"]);
    let (masters, indices) = get_index_remap(&plugin_masters, &master_masters, &target(""));
    assert_eq!(masters, Some(masters_vec(&["A", "B", "C"])));
    assert_eq!(indices, None);
}

#[test]
fn remap_masters_same_masters_in_different_order() {
    let plugin_masters = masters_vec(&["C", "A", "B"]);
    let master_masters = masters_vec(&["A", "C", "B"]);
    let (masters, indices) = get_index_remap(&plugin_masters, &master_masters, &target(""));
    assert_eq!(masters, None);
    assert_eq!(indices, Some(vec![0, 2, 1, 3]));
}

#[test]
fn remap_masters_either_side_empty() {
    let plugin_masters = masters_vec(&[]);
    let master_masters = masters_vec(&["A"]);
    let (masters, indices) = get_index_remap(&plugin_masters, &master_masters, &target(""));
    assert_eq!(masters, None);
    assert_eq!(indices, None);

    let plugin_masters = masters_vec(&["A"]);
    let master_masters = masters_vec(&[]);
    let (masters, indices) = get_index_remap(&plugin_masters, &master_masters, &target(""));
    assert_eq!(masters, Some(masters_vec(&["A"])));
    assert_eq!(indices, None);
}

#[test]
fn remap_masters_case_insensitive_match() {
    let plugin_masters = masters_vec(&["morrowind.ESM"]);
    let master_masters = masters_vec(&["Morrowind.esm"]);
    let (masters, indices) = get_index_remap(&plugin_masters, &master_masters, &target(""));
    assert_eq!(masters, None);
    assert_eq!(indices, None);
}
