use std::io::Write;

use portable_node::archive::{
    extract_plan, plan_entries, read_archive, strip_root, ArchiveEntry, ExtractError,
};

fn entry(name: &str) -> ArchiveEntry {
    ArchiveEntry {
        raw_name: name.to_string(),
        path: name.trim_end_matches('/').to_string(),
        data: Vec::new(),
    }
}

fn zip_bytes(files: &[(&str, &[u8])], dirs: &[&str]) -> Vec<u8> {
    let mut w = zip::ZipWriter::new(std::io::Cursor::new(Vec::new()));
    for d in dirs {
        w.add_directory(*d, zip::write::FileOptions::default()).unwrap();
    }
    for (name, data) in files {
        w.start_file(*name, zip::write::FileOptions::default()).unwrap();
        w.write_all(data).unwrap();
    }
    w.finish().unwrap().into_inner()
}

#[test]
fn strip_root_is_component_wise() {
    assert_eq!(strip_root("node-v20.0.0-linux-x64/bin/node", "node-v20.0.0-linux-x64"), Some("bin/node".to_string()));
    assert_eq!(strip_root("node-v20.0.0-linux-x64", "node-v20.0.0-linux-x64"), Some(String::new()));
    assert_eq!(strip_root("node-v20.0.0-linux-x64x/a", "node-v20.0.0-linux-x64"), None);
    assert_eq!(strip_root("other-root/foo.txt", "node-v20.0.0-linux-x64"), None);
    assert_eq!(strip_root("node", "node-v20.0.0-linux-x64"), None);
}

#[test]
fn prefix_filter_skips_foreign_entries() {
    let entries = vec![entry("other-root/foo.txt"), entry("node-v20.0.0-linux-x64/bin/node")];
    let steps = plan_entries(&entries, "node-v20.0.0-linux-x64");
    assert_eq!(steps.len(), 1);
    assert_eq!(steps[0].index, 1);
    assert_eq!(steps[0].path, "bin/node");
    assert!(!steps[0].is_dir);
}

#[test]
fn directories_are_marked() {
    let entries = vec![entry("pkg-v1-os-arch/"), entry("pkg-v1-os-arch/bin/"), entry("pkg-v1-os-arch/bin/tool")];
    let steps = plan_entries(&entries, "pkg-v1-os-arch");
    assert_eq!(steps.len(), 3);
    assert!(steps[0].is_dir && steps[0].path.is_empty());
    assert!(steps[1].is_dir && steps[1].path == "bin");
    assert!(!steps[2].is_dir && steps[2].path == "bin/tool");
}

#[test]
fn extraction_scenario_keeps_exact_content() {
    let bytes = zip_bytes(
        &[("pkg-v1-os-arch/README.md", b"# readme\n"), ("pkg-v1-os-arch/bin/tool", b"\x7fELF tool")],
        &[],
    );
    let (entries, steps) = extract_plan(bytes, "pkg-v1-os-arch").unwrap();
    let files: Vec<(String, Vec<u8>)> = steps
        .iter()
        .filter(|s| !s.is_dir)
        .map(|s| (s.path.clone(), entries[s.index].data.clone()))
        .collect();
    assert_eq!(
        files,
        vec![
            ("README.md".to_string(), b"# readme\n".to_vec()),
            ("bin/tool".to_string(), b"\x7fELF tool".to_vec()),
        ]
    );
}

#[test]
fn extraction_from_archive_skips_other_root() {
    let bytes = zip_bytes(
        &[("other-root/foo.txt", b"x"), ("node-v20.0.0-linux-x64/bin/node", b"bin")],
        &["node-v20.0.0-linux-x64/bin"],
    );
    let (entries, steps) = extract_plan(bytes, "node-v20.0.0-linux-x64").unwrap();
    assert_eq!(entries.len(), 3);
    assert_eq!(steps.len(), 2);
    assert!(steps[0].is_dir);
    assert_eq!(steps[0].path, "bin");
    assert_eq!(steps[1].path, "bin/node");
    assert_eq!(entries[steps[1].index].data, b"bin".to_vec());
    assert!(steps.iter().all(|s| !s.path.contains("foo.txt")));
}

#[test]
fn read_archive_reports_names() {
    let bytes = zip_bytes(&[("r/a.txt", b"a")], &["r/d"]);
    let entries = read_archive(bytes).unwrap();
    assert_eq!(entries.len(), 2);
    assert_eq!(entries[0].raw_name, "r/d/");
    assert_eq!(entries[0].path, "r/d");
    assert_eq!(entries[1].raw_name, "r/a.txt");
    assert_eq!(entries[1].data, b"a".to_vec());
}

#[test]
fn invalid_archive_fails_to_open() {
    assert!(matches!(read_archive(b"not a zip".to_vec()), Err(ExtractError::ArchiveOpen)));
    assert!(matches!(extract_plan(Vec::new(), "r"), Err(ExtractError::ArchiveOpen)));
}

#[test]
fn entry_paths_are_sanitized() {
    let bytes = zip_bytes(&[("/r/a.txt", b"a"), ("r/../r/./b.txt", b"b")], &[]);
    let (entries, steps) = extract_plan(bytes, "r").unwrap();
    assert_eq!(entries[0].path, "r/a.txt");
    assert_eq!(entries[1].path, "r/r/b.txt");
    assert_eq!(steps[0].path, "a.txt");
    assert_eq!(steps[1].path, "r/b.txt");
}
