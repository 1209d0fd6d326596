use apk_packager::errors::ApkError;
use apk_packager::index::{parse_index, resolve, resolve_url, PackageIndex, PackageMetadata};
use apk_packager::plan::{all_label, index_url};

fn meta(name: &str, filename: &str, base: &str) -> PackageMetadata {
    PackageMetadata {
        name: name.as_bytes().to_vec(),
        filename: filename.as_bytes().to_vec(),
        repo_base: base.as_bytes().to_vec(),
    }
}

#[test]
fn resolver_prefers_architecture_specific_entry() {
    let mut arch = PackageIndex::new();
    arch.insert(meta("libfoo", "libfoo_native.pkg", "https://repo/aarch64"));
    let mut all = PackageIndex::new();
    all.insert(meta("libfoo", "libfoo_noarch.pkg", "https://repo/all"));
    let r = resolve(&b"libfoo".to_vec(), &arch, &all).unwrap();
    assert_eq!(r.filename, b"libfoo_native.pkg".to_vec());
    assert_eq!(r.repo_base, b"https://repo/aarch64".to_vec());
    let url = resolve_url(&b"libfoo".to_vec(), &arch, &all).unwrap();
    assert_eq!(
        String::from_utf8(url).unwrap(),
        "https://repo/aarch64/libfoo_native.pkg"
    );
}

#[test]
fn resolver_falls_back_to_all_index() {
    let mut arch = PackageIndex::new();
    arch.insert(meta("other", "other.pkg", "https://repo/aarch64"));
    let mut all = PackageIndex::new();
    all.insert(meta("libfoo", "libfoo_1.0.pkg", "https://repo/all"));
    let url = resolve_url(&b"libfoo".to_vec(), &arch, &all).unwrap();
    assert_eq!(
        String::from_utf8(url).unwrap(),
        "https://repo/all/libfoo_1.0.pkg"
    );
}

#[test]
fn resolver_reports_missing_package() {
    let arch = PackageIndex::new();
    let all = PackageIndex::new();
    match resolve(&b"libfoo".to_vec(), &arch, &all) {
        Err(e) => assert_eq!(e, ApkError::PackageNotFound),
        Ok(_) => panic!("resolved a package absent from both indices"),
    }
}

#[test]
fn parse_index_builds_records() {
    let text = "Package: libfoo\nVersion: 1.0\nFilename: pool/libfoo_1.0.pkg\n\nPackage: bar\nMaintainer: someone\nFilename: pool/bar_2.pkg\n";
    let ix = parse_index(&text.as_bytes().to_vec(), &b"https://repo".to_vec()).unwrap();
    let m = ix.get(&b"libfoo".to_vec()).unwrap();
    assert_eq!(m.filename, b"pool/libfoo_1.0.pkg".to_vec());
    assert_eq!(
        String::from_utf8(m.package_url()).unwrap(),
        "https://repo/pool/libfoo_1.0.pkg"
    );
    let b = ix.get(&b"bar".to_vec()).unwrap();
    assert_eq!(b.filename, b"pool/bar_2.pkg".to_vec());
    assert!(ix.get(&b"missing".to_vec()).is_none());
}

#[test]
fn parse_index_later_duplicate_wins() {
    let text = "Package: libfoo\nFilename: pool/libfoo_1.0.pkg\n\nPackage: libfoo\nFilename: pool/libfoo_2.0.pkg\n";
    let ix = parse_index(&text.as_bytes().to_vec(), &b"https://repo".to_vec()).unwrap();
    let m = ix.get(&b"libfoo".to_vec()).unwrap();
    assert_eq!(m.filename, b"pool/libfoo_2.0.pkg".to_vec());
}

#[test]
fn parse_index_rejects_half_declared_paragraph() {
    let text = "Package: libfoo\n\nPackage: bar\nFilename: pool/bar.pkg\n";
    match parse_index(&text.as_bytes().to_vec(), &b"https://repo".to_vec()) {
        Err(e) => assert_eq!(e, ApkError::IndexFetchError),
        Ok(_) => panic!("parsed a paragraph lacking its file name"),
    }
}

#[test]
fn parse_index_accepts_empty_text() {
    let ix = parse_index(&Vec::new(), &b"https://repo".to_vec()).unwrap();
    assert!(ix.get(&b"libfoo".to_vec()).is_none());
}

#[test]
fn index_url_layout() {
    let u = index_url(&b"https://repo".to_vec(), &all_label());
    assert_eq!(
        String::from_utf8(u).unwrap(),
        "https://repo/dists/stable/main/binary-all/Packages"
    );
    let v = index_url(
        &b"https://repo".to_vec(),
        &apk_packager::plan::arch_name(apk_packager::plan::Arch::Aarch64),
    );
    assert_eq!(
        String::from_utf8(v).unwrap(),
        "https://repo/dists/stable/main/binary-aarch64/Packages"
    );
}
