use std::io::Read;
use vault_archive::archive::{ArchiveError, MANIFEST_NAME};
use vault_archive::backup::{backup_files_as_tar_zst, restore_files_from_tar_zst};
use vault_archive::manifest::build_manifest;
use vault_archive::model::SourceFile;

fn file(path: &str, data: &[u8]) -> SourceFile {
    SourceFile { rel_path: path.to_string(), data: data.to_vec() }
}

fn entries_of(archive: &[u8]) -> Vec<(String, Vec<u8>)> {
    let stream = zstd::stream::decode_all(archive).unwrap();
    let mut ar = tar::Archive::new(stream.as_slice());
    let mut out = Vec::new();
    for e in ar.entries().unwrap() {
        let mut e = e.unwrap();
        let name = e.path().unwrap().to_string_lossy().to_string();
        let mut data = Vec::new();
        e.read_to_end(&mut data).unwrap();
        out.push((name, data));
    }
    out
}

fn archive_of(entries: &[(String, Vec<u8>)]) -> Vec<u8> {
    let mut b = tar::Builder::new(Vec::new());
    for (name, data) in entries {
        let mut h = tar::Header::new_gnu();
        h.set_size(data.len() as u64);
        h.set_mode(0o644);
        b.append_data(&mut h, name, data.as_slice()).unwrap();
    }
    let stream = b.into_inner().unwrap();
    zstd::stream::encode_all(stream.as_slice(), 3).unwrap()
}

const ABC_SHA256: &str = "ba7816bf8f01cfea414140de5dae2223b00361a396177a9cb410ff61f20015ad";

#[test]
fn vault_notes_scenario() {
    let files = vec![file("notes/a.md", b"# A\nalpha\n"), file("notes/b.md", b"# B\nbeta\n")];
    let archive = backup_files_as_tar_zst(&files, 3).unwrap();
    let plan = restore_files_from_tar_zst(&archive).unwrap();
    assert_eq!(plan.result.success_count, 2);
    assert_eq!(plan.result.failed_count, 0);
    assert!(plan.result.failed_files.is_empty());
    assert_eq!(plan.files.len(), 2);
    assert_eq!(plan.files[0].name, "notes/a.md");
    assert_eq!(plan.files[0].data, b"# A\nalpha\n".to_vec());
    assert_eq!(plan.files[1].name, "notes/b.md");
    assert_eq!(plan.files[1].data, b"# B\nbeta\n".to_vec());
}

#[test]
fn round_trip_keeps_arbitrary_bytes() {
    let binary: Vec<u8> = (0..=255u8).cycle().take(3000).collect();
    let files = vec![
        file("x/bin.dat", &binary),
        file("empty.txt", b""),
        file("\\win\\style.txt", b"back"),
        file("deep/a/b/c.md", b"deep"),
    ];
    let archive = backup_files_as_tar_zst(&files, 5).unwrap();
    let plan = restore_files_from_tar_zst(&archive).unwrap();
    assert_eq!(plan.result.success_count, 4);
    assert_eq!(plan.result.failed_count, 0);
    let names: Vec<&str> = plan.files.iter().map(|f| f.name.as_str()).collect();
    assert_eq!(names, vec!["x/bin.dat", "empty.txt", "win\\style.txt", "deep/a/b/c.md"]);
    assert_eq!(plan.files[0].data, binary);
    assert!(plan.files[1].data.is_empty());
}

#[test]
fn leading_separator_gives_same_key() {
    let a = backup_files_as_tar_zst(&vec![file("a/b.txt", b"same")], 3).unwrap();
    let b = backup_files_as_tar_zst(&vec![file("/a/b.txt", b"same")], 3).unwrap();
    assert_eq!(entries_of(&a)[0].0, "a/b.txt");
    assert_eq!(entries_of(&b)[0].0, "a/b.txt");
    assert_eq!(a, b);
}

#[test]
fn archive_has_data_entries_then_manifest() {
    let files = vec![file("c.md", b"3"), file("a.md", b"1"), file("b.md", b"2")];
    let archive = backup_files_as_tar_zst(&files, 3).unwrap();
    let es = entries_of(&archive);
    assert_eq!(es.len(), 4);
    assert_eq!(es[0], ("c.md".to_string(), b"3".to_vec()));
    assert_eq!(es[1], ("a.md".to_string(), b"1".to_vec()));
    assert_eq!(es[2], ("b.md".to_string(), b"2".to_vec()));
    assert_eq!(es[3].0, MANIFEST_NAME);
    let manifest: indexmap::IndexMap<String, String> = serde_yaml_ng::from_slice(&es[3].1).unwrap();
    assert_eq!(manifest.len(), 3);
    let keys: Vec<&String> = manifest.keys().collect();
    assert_eq!(keys, vec!["c.md", "a.md", "b.md"]);
}

#[test]
fn manifest_digest_is_sha256_hex() {
    let m = build_manifest(&vec![file("abc.txt", b"abc")]);
    assert_eq!(m.len(), 1);
    assert_eq!(m[0].path, "abc.txt");
    assert_eq!(m[0].digest, ABC_SHA256);
}

#[test]
fn repeated_path_keeps_first_place_and_last_digest() {
    let m = build_manifest(&vec![file("/abc.txt", b"old"), file("z.txt", b"z"), file("abc.txt", b"abc")]);
    assert_eq!(m.len(), 2);
    assert_eq!(m[0].path, "abc.txt");
    assert_eq!(m[0].digest, ABC_SHA256);
    assert_eq!(m[1].path, "z.txt");
}

#[test]
fn empty_backup_has_no_entries_and_restore_refuses_it() {
    let archive = backup_files_as_tar_zst(&Vec::new(), 3).unwrap();
    assert!(entries_of(&archive).is_empty());
    assert_eq!(restore_files_from_tar_zst(&archive).err(), Some(ArchiveError::MissingManifest));
}

#[test]
fn archive_without_manifest_is_refused() {
    let archive = archive_of(&[("a.md".to_string(), b"x".to_vec())]);
    assert_eq!(restore_files_from_tar_zst(&archive).err(), Some(ArchiveError::MissingManifest));
}

#[test]
fn tampered_entry_fails_alone() {
    let files = vec![file("one.md", b"first"), file("two.md", b"second"), file("three.md", b"third")];
    let archive = backup_files_as_tar_zst(&files, 3).unwrap();
    let mut es = entries_of(&archive);
    es[1].1[0] ^= 0x01;
    let plan = restore_files_from_tar_zst(&archive_of(&es)).unwrap();
    assert_eq!(plan.result.success_count, 2);
    assert_eq!(plan.result.failed_count, 1);
    assert_eq!(plan.result.failed_files, vec!["two.md".to_string()]);
    let names: Vec<&str> = plan.files.iter().map(|f| f.name.as_str()).collect();
    assert_eq!(names, vec!["one.md", "three.md"]);
}

#[test]
fn manifest_path_without_entry_fails() {
    let manifest = format!("abc.txt: {}\nmissing.txt: {}\n", ABC_SHA256, ABC_SHA256);
    let archive = archive_of(&[
        ("abc.txt".to_string(), b"abc".to_vec()),
        (MANIFEST_NAME.to_string(), manifest.into_bytes()),
    ]);
    let plan = restore_files_from_tar_zst(&archive).unwrap();
    assert_eq!(plan.result.success_count, 1);
    assert_eq!(plan.result.failed_count, 1);
    assert_eq!(plan.result.failed_files, vec!["missing.txt".to_string()]);
}

#[test]
fn entry_not_in_manifest_is_not_restored() {
    let manifest = format!("abc.txt: {}\n", ABC_SHA256);
    let archive = archive_of(&[
        ("abc.txt".to_string(), b"abc".to_vec()),
        ("extra.txt".to_string(), b"extra".to_vec()),
        (MANIFEST_NAME.to_string(), manifest.into_bytes()),
    ]);
    let plan = restore_files_from_tar_zst(&archive).unwrap();
    assert_eq!(plan.result.success_count, 1);
    assert_eq!(plan.result.failed_count, 0);
    assert_eq!(plan.files.len(), 1);
    assert_eq!(plan.files[0].name, "abc.txt");
}

#[test]
fn malformed_manifest_is_a_format_error() {
    let archive = archive_of(&[(MANIFEST_NAME.to_string(), b"[: not a mapping".to_vec())]);
    assert_eq!(restore_files_from_tar_zst(&archive).err(), Some(ArchiveError::Format));
}

#[test]
fn garbage_is_a_compression_error() {
    let garbage = b"this is not zstd".to_vec();
    assert_eq!(restore_files_from_tar_zst(&garbage).err(), Some(ArchiveError::Compression));
}

#[test]
fn parent_component_is_a_format_error() {
    let files = vec![file("../escape.txt", b"x")];
    assert_eq!(backup_files_as_tar_zst(&files, 3).err(), Some(ArchiveError::Format));
}

#[test]
fn archive_name_collision_fails_that_file() {
    let files = vec![file("keep.md", b"k"), file("/verify.yml", b"user file")];
    let archive = backup_files_as_tar_zst(&files, 3).unwrap();
    let plan = restore_files_from_tar_zst(&archive).unwrap();
    assert_eq!(plan.result.success_count, 1);
    assert_eq!(plan.result.failed_files, vec![MANIFEST_NAME.to_string()]);
}
