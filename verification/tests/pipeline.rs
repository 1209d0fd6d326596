use apk_packager::archive::RawEntry;
use apk_packager::errors::ApkError;
use apk_packager::plan::{
    abi_name, all_architectures, check_output_root, extract_for_architecture, jni_libs_dir, overall_success,
    Arch,
};
use apk_packager::visitor::{visit_files, CreateApkVisitor};
use std::io::Write;

fn header(kind: tar::EntryType, path: &str, size: u64) -> tar::Header {
    let mut h = tar::Header::new_ustar();
    h.set_entry_type(kind);
    h.set_path(path).unwrap();
    h.set_size(size);
    h.set_cksum();
    h
}

fn gzip(data: &[u8]) -> Vec<u8> {
    let mut e = flate2::write::GzEncoder::new(Vec::new(), flate2::Compression::default());
    e.write_all(data).unwrap();
    e.finish().unwrap()
}

fn outer_with(payload_name: &str, payload: &[u8]) -> Vec<u8> {
    let mut b = tar::Builder::new(Vec::new());
    let ctrl = b"control";
    let mut h = header(tar::EntryType::Regular, "control.tar.gz", ctrl.len() as u64);
    h.set_cksum();
    b.append(&h, &ctrl[..]).unwrap();
    let mut h = header(tar::EntryType::Regular, payload_name, payload.len() as u64);
    h.set_cksum();
    b.append(&h, payload).unwrap();
    b.into_inner().unwrap()
}

fn inner_two_entries() -> Vec<u8> {
    let mut b = tar::Builder::new(Vec::new());
    let h = header(tar::EntryType::Regular, "./usr/lib/libfoo.so", 10);
    b.append(&h, &b"0123456789"[..]).unwrap();
    let mut h = tar::Header::new_ustar();
    h.set_entry_type(tar::EntryType::Symlink);
    h.set_path("./usr/lib/libfoo.so.1").unwrap();
    h.set_link_name("libfoo.so").unwrap();
    h.set_size(0);
    h.set_cksum();
    b.append(&h, &b""[..]).unwrap();
    b.into_inner().unwrap()
}

#[test]
fn end_to_end_regular_and_symlink() {
    let archive = outer_with("data.tar.gz", &gzip(&inner_two_entries()));
    let out = visit_files(&archive, 4, b"out".to_vec()).unwrap();
    assert_eq!(
        String::from_utf8(out.mapping_manifest).unwrap(),
        "0.so\u{2190}lib/libfoo.so"
    );
    assert_eq!(
        String::from_utf8(out.symlink_manifest).unwrap(),
        "libfoo.so\u{2190}lib/libfoo.so.1"
    );
    assert_eq!(out.artifacts.len(), 1);
    assert_eq!(String::from_utf8(out.artifacts[0].path.clone()).unwrap(), "out/0.so");
    assert_eq!(out.artifacts[0].content, b"0123456789".to_vec());
}

#[test]
fn uncompressed_payload_is_accepted() {
    let archive = outer_with("data.tar", &inner_two_entries());
    let out = visit_files(&archive, 4, b"out".to_vec()).unwrap();
    assert_eq!(
        String::from_utf8(out.mapping_manifest).unwrap(),
        "0.so\u{2190}lib/libfoo.so"
    );
}

#[test]
fn numbering_is_contiguous_and_counts_match() {
    let mut b = tar::Builder::new(Vec::new());
    let h = header(tar::EntryType::Directory, "./usr/lib/", 0);
    b.append(&h, &b""[..]).unwrap();
    let h = header(tar::EntryType::Regular, "./usr/lib/a.so", 2);
    b.append(&h, &b"aa"[..]).unwrap();
    let mut h = tar::Header::new_ustar();
    h.set_entry_type(tar::EntryType::Symlink);
    h.set_path("./usr/lib/a.so.1").unwrap();
    h.set_link_name("a.so").unwrap();
    h.set_size(0);
    h.set_cksum();
    b.append(&h, &b""[..]).unwrap();
    let h = header(tar::EntryType::Regular, "./usr/lib/b.so", 2);
    b.append(&h, &b"bb"[..]).unwrap();
    let h = header(tar::EntryType::Regular, "./usr/lib/c.so", 2);
    b.append(&h, &b"cc"[..]).unwrap();
    let inner = b.into_inner().unwrap();
    let archive = outer_with("data.tar.gz", &gzip(&inner));
    let out = visit_files(&archive, 4, b"jni".to_vec()).unwrap();
    let mapping = String::from_utf8(out.mapping_manifest).unwrap();
    let symlinks = String::from_utf8(out.symlink_manifest).unwrap();
    assert_eq!(
        mapping,
        "0.so\u{2190}lib/a.so\n1.so\u{2190}lib/b.so\n2.so\u{2190}lib/c.so"
    );
    assert_eq!(mapping.split('\n').count(), 3);
    assert_eq!(symlinks, "a.so\u{2190}lib/a.so.1");
    assert_eq!(symlinks.split('\n').count(), 1);
    assert_eq!(out.artifacts.len(), 3);
    assert_eq!(String::from_utf8(out.artifacts[0].path.clone()).unwrap(), "jni/0.so");
    assert_eq!(String::from_utf8(out.artifacts[1].path.clone()).unwrap(), "jni/1.so");
    assert_eq!(String::from_utf8(out.artifacts[2].path.clone()).unwrap(), "jni/2.so");
    assert_eq!(out.artifacts[1].content, b"bb".to_vec());
}

#[test]
fn rerun_over_identical_bytes_is_identical() {
    let archive = outer_with("data.tar.gz", &gzip(&inner_two_entries()));
    let first = visit_files(&archive, 4, b"out".to_vec()).unwrap();
    let second = visit_files(&archive, 4, b"out".to_vec()).unwrap();
    assert_eq!(first.mapping_manifest, second.mapping_manifest);
    assert_eq!(first.symlink_manifest, second.symlink_manifest);
    assert_eq!(first.artifacts.len(), second.artifacts.len());
    for (a, b) in first.artifacts.iter().zip(second.artifacts.iter()) {
        assert_eq!(a.path, b.path);
        assert_eq!(a.content, b.content);
    }
}

#[test]
fn short_path_fails_and_sibling_still_completes() {
    let mut b = tar::Builder::new(Vec::new());
    let h = header(tar::EntryType::Regular, "./u", 1);
    b.append(&h, &b"x"[..]).unwrap();
    let bad_archive = outer_with("data.tar.gz", &gzip(&b.into_inner().unwrap()));
    match extract_for_architecture(&bad_archive, &b"root".to_vec(), Arch::Arm, 4) {
        Err(e) => assert_eq!(e, ApkError::ArchiveFormatError),
        Ok(_) => panic!("accepted a path shorter than the strip prefix"),
    }
    let good_archive = outer_with("data.tar.gz", &gzip(&inner_two_entries()));
    let plan = extract_for_architecture(&good_archive, &b"root".to_vec(), Arch::Aarch64, 4).unwrap();
    assert_eq!(
        String::from_utf8(plan.directory.clone()).unwrap(),
        "root/app/src/main/jniLibs/arm64-v8a"
    );
    assert_eq!(overall_success(&vec![false, true]), false);
    assert_eq!(overall_success(&vec![true, true]), true);
}

#[test]
fn short_path_on_skipped_kind_is_ignored() {
    let mut b = tar::Builder::new(Vec::new());
    let h = header(tar::EntryType::Directory, "./u", 0);
    b.append(&h, &b""[..]).unwrap();
    let h = header(tar::EntryType::Regular, "./usr/lib/a.so", 1);
    b.append(&h, &b"x"[..]).unwrap();
    let archive = outer_with("data.tar.gz", &gzip(&b.into_inner().unwrap()));
    let out = visit_files(&archive, 4, b"out".to_vec()).unwrap();
    assert_eq!(String::from_utf8(out.mapping_manifest).unwrap(), "0.so\u{2190}lib/a.so");
    assert_eq!(out.symlink_manifest, Vec::<u8>::new());
}

#[test]
fn missing_payload_member_is_a_format_error() {
    let mut b = tar::Builder::new(Vec::new());
    let h = header(tar::EntryType::Regular, "control.tar.gz", 1);
    b.append(&h, &b"c"[..]).unwrap();
    let archive = b.into_inner().unwrap();
    match visit_files(&archive, 4, b"out".to_vec()) {
        Err(e) => assert_eq!(e, ApkError::ArchiveFormatError),
        Ok(_) => panic!("visited an archive with no payload member"),
    }
}

#[test]
fn garbage_bytes_are_a_format_error() {
    let archive = b"not an archive at all".to_vec();
    match visit_files(&archive, 4, b"out".to_vec()) {
        Err(e) => assert_eq!(e, ApkError::ArchiveFormatError),
        Ok(_) => panic!("visited garbage"),
    }
}

#[test]
fn empty_payload_yields_empty_manifests() {
    let b = tar::Builder::new(Vec::new());
    let inner = b.into_inner().unwrap();
    let archive = outer_with("data.tar.gz", &gzip(&inner));
    let out = visit_files(&archive, 4, b"out".to_vec()).unwrap();
    assert_eq!(out.mapping_manifest, Vec::<u8>::new());
    assert_eq!(out.symlink_manifest, Vec::<u8>::new());
    assert_eq!(out.artifacts.len(), 0);
}

#[test]
fn output_root_guard() {
    match check_output_root(true) {
        Err(e) => assert_eq!(e, ApkError::OutputExistsError),
        Ok(()) => panic!("accepted an existing output root"),
    }
    assert!(check_output_root(false).is_ok());
}

#[test]
fn abi_directory_names() {
    assert_eq!(String::from_utf8(abi_name(Arch::Arm)).unwrap(), "armeabi-v7a");
    assert_eq!(String::from_utf8(abi_name(Arch::Aarch64)).unwrap(), "arm64-v8a");
    assert_eq!(String::from_utf8(abi_name(Arch::I686)).unwrap(), "x86");
    assert_eq!(String::from_utf8(abi_name(Arch::X8664)).unwrap(), "x86_64");
    assert_eq!(all_architectures().len(), 4);
    assert_eq!(
        String::from_utf8(jni_libs_dir(&b"o".to_vec(), Arch::I686)).unwrap(),
        "o/app/src/main/jniLibs/x86"
    );
}

#[test]
fn extraction_plan_writes_artifacts_then_manifests() {
    let archive = outer_with("data.tar.gz", &gzip(&inner_two_entries()));
    let plan = extract_for_architecture(&archive, &b"root".to_vec(), Arch::Arm, 4).unwrap();
    let dir = "root/app/src/main/jniLibs/armeabi-v7a";
    assert_eq!(String::from_utf8(plan.directory.clone()).unwrap(), dir);
    assert_eq!(plan.writes.len(), 3);
    assert_eq!(
        String::from_utf8(plan.writes[0].path.clone()).unwrap(),
        format!("{}/0.so", dir)
    );
    assert_eq!(plan.writes[0].content, b"0123456789".to_vec());
    assert_eq!(
        String::from_utf8(plan.writes[1].path.clone()).unwrap(),
        format!("{}/files.so", dir)
    );
    assert_eq!(
        String::from_utf8(plan.writes[1].content.clone()).unwrap(),
        "0.so\u{2190}lib/libfoo.so"
    );
    assert_eq!(
        String::from_utf8(plan.writes[2].path.clone()).unwrap(),
        format!("{}/symlinks.so", dir)
    );
    assert_eq!(
        String::from_utf8(plan.writes[2].content.clone()).unwrap(),
        "libfoo.so\u{2190}lib/libfoo.so.1"
    );
}

#[test]
fn visitor_numbers_independently_per_state() {
    let entry = RawEntry {
        typeflag: b'0',
        path: b"./usr/lib/a.so".to_vec(),
        link: Vec::new(),
        content: b"aa".to_vec(),
    };
    let other = RawEntry {
        typeflag: b'5',
        path: b"./usr/lib/".to_vec(),
        link: Vec::new(),
        content: Vec::new(),
    };
    let mut first = CreateApkVisitor::new(b"one".to_vec());
    let mut second = CreateApkVisitor::new(b"two".to_vec());
    let a = first.visit_file(&entry, 6).unwrap().unwrap();
    assert_eq!(String::from_utf8(a.path).unwrap(), "one/0.so");
    assert!(first.visit_file(&other, 6).unwrap().is_none());
    let b = first.visit_file(&entry, 6).unwrap().unwrap();
    assert_eq!(String::from_utf8(b.path).unwrap(), "one/1.so");
    let c = second.visit_file(&entry, 6).unwrap().unwrap();
    assert_eq!(String::from_utf8(c.path).unwrap(), "two/0.so");
    assert_eq!(
        String::from_utf8(first.mapping_manifest()).unwrap(),
        "0.so\u{2190}lib/a.so\n1.so\u{2190}lib/a.so"
    );
}
