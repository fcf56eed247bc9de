use lanzaboote::gc::Roots;

/// The paths that a walk of `root` finds, `root` first, as `WalkDir` yields them.
fn walk(root: &str, children: &[&str]) -> Vec<String> {
    let mut entries = vec![root.to_string()];
    for c in children {
        entries.push(format!("{root}/{c}"));
    }
    entries
}

fn roots_of(paths: &[String]) -> Roots {
    let mut roots = Roots::new();
    roots.extend(&paths.to_vec());
    roots
}

#[test]
fn keep_used_file() {
    let rootdir = "/tmp/gc/root".to_string();
    let used_file = format!("{rootdir}/root_file");
    let entries = walk(&rootdir, &["root_file"]);

    let roots = roots_of(&[rootdir.clone(), used_file.clone()]);
    let garbage = roots.collect_garbage(&entries);

    assert!(!garbage.contains(&used_file));
}

#[test]
fn delete_unused_file() {
    let rootdir = "/tmp/gc/root".to_string();
    let unused_file = format!("{rootdir}/unused_file");
    let entries = walk(&rootdir, &["unused_file"]);

    let roots = roots_of(&[rootdir.clone()]);
    let garbage = roots.collect_garbage(&entries);

    assert!(garbage.contains(&unused_file));
}

#[test]
fn delete_empty_unused_directory() {
    let rootdir = "/tmp/gc/root".to_string();
    let unused_directory = format!("{rootdir}/unused_directory");
    let entries = walk(&rootdir, &["unused_directory"]);

    let roots = roots_of(&[rootdir.clone()]);
    let garbage = roots.collect_garbage(&entries);

    assert!(garbage.contains(&unused_directory));
}

#[test]
fn delete_unused_directory_with_unused_file_inside() {
    let rootdir = "/tmp/gc/root".to_string();
    let unused_directory = format!("{rootdir}/unused_directory");
    let unused_file_in_directory = format!("{unused_directory}/unused_file_in_directory");
    let entries = walk(&rootdir, &["unused_directory", "unused_directory/unused_file_in_directory"]);

    let roots = roots_of(&[rootdir.clone()]);
    let garbage = roots.collect_garbage(&entries);

    assert!(garbage.contains(&unused_directory));
    assert!(garbage.contains(&unused_file_in_directory));
}

#[test]
fn keep_used_directory_with_used_and_unused_file() {
    let rootdir = "/tmp/gc/root".to_string();
    let used_directory = format!("{rootdir}/used_directory");
    let used_file_in_directory = format!("{used_directory}/used_file_in_directory");
    let unused_file_in_directory = format!("{used_directory}/unused_file_in_directory");
    let entries = walk(
        &rootdir,
        &[
            "used_directory",
            "used_directory/used_file_in_directory",
            "used_directory/unused_file_in_directory",
        ],
    );

    let roots = roots_of(&[rootdir.clone(), used_directory.clone(), used_file_in_directory.clone()]);
    let garbage = roots.collect_garbage(&entries);

    assert!(!garbage.contains(&used_directory));
    assert!(!garbage.contains(&used_file_in_directory));
    assert!(garbage.contains(&unused_file_in_directory));
}

#[test]
fn only_delete_filtered_unused_files() {
    let rootdir = "/tmp/gc/root".to_string();
    let unused_file = format!("{rootdir}/unused_file");
    let unused_file_with_prefix = format!("{rootdir}/prefix_unused_file");
    let entries = walk(&rootdir, &["unused_file", "prefix_unused_file"]);

    let roots = roots_of(&[rootdir.clone()]);
    let considered: Vec<bool> = entries
        .iter()
        .map(|p| p.rsplit('/').next().map_or(false, |n| n.starts_with("prefix_")))
        .collect();
    let garbage = roots.collect_garbage_with_filter(&entries, &considered);

    assert!(!garbage.contains(&unused_file));
    assert!(garbage.contains(&unused_file_with_prefix));
}

#[test]
fn roots_compare_paths_by_component() {
    let mut roots = Roots::new();
    roots.extend(&vec!["/esp/EFI/nixos/".to_string()]);
    assert!(roots.in_use("/esp/EFI/nixos"));
    assert!(roots.in_use("/esp//EFI/./nixos"));
    assert!(!roots.in_use("esp/EFI/nixos"));
    assert!(!roots.in_use("/esp/EFI/nixos/kernel.efi"));
}
