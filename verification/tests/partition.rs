use anvil_trim::trim::group_region_files;

fn names(n: usize) -> Vec<String> {
    (0..n).map(|i| format!("r.{}.0.mca", i)).collect()
}

#[test]
fn round_robin_partition() {
    let files = names(5);
    let groups = group_region_files(&files, 2);
    assert_eq!(groups.len(), 2);
    assert_eq!(groups[0], vec![files[0].clone(), files[2].clone(), files[4].clone()]);
    assert_eq!(groups[1], vec![files[1].clone(), files[3].clone()]);
}

#[test]
fn single_group_takes_everything_in_order() {
    let files = names(4);
    let groups = group_region_files(&files, 1);
    assert_eq!(groups.len(), 1);
    assert_eq!(groups[0], files);
}

#[test]
fn surplus_groups_stay_empty() {
    let files = names(3);
    let groups = group_region_files(&files, 5);
    assert_eq!(groups.len(), 5);
    assert_eq!(groups[0], vec![files[0].clone()]);
    assert_eq!(groups[1], vec![files[1].clone()]);
    assert_eq!(groups[2], vec![files[2].clone()]);
    assert!(groups[3].is_empty());
    assert!(groups[4].is_empty());
}

#[test]
fn partition_is_complete_as_a_multiset() {
    let files = names(11);
    let groups = group_region_files(&files, 3);
    let mut gathered: Vec<String> = groups.into_iter().flatten().collect();
    gathered.sort();
    let mut expected = files.clone();
    expected.sort();
    assert_eq!(gathered, expected);
}

#[test]
fn empty_file_list_gives_empty_groups() {
    let files: Vec<String> = Vec::new();
    let groups = group_region_files(&files, 3);
    assert_eq!(groups.len(), 3);
    assert!(groups.iter().all(|g| g.is_empty()));
}
