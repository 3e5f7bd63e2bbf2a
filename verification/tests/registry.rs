//! The package layer: lists, metadata, flags, and the byte helpers.
use fracpack::list::PackageList;
use fracpack::package::{translate_flags, Checksum256, DirectoryRegistry, PackageInfo, PackageRef,
    PkgError};
use fracpack::util::{normalize_upload_path, to_hex};

fn sample_list() -> PackageList {
    let mut l = PackageList::new();
    l.insert("beta".to_string(), "1.0.0".to_string());
    l.insert("alpha".to_string(), "2.1.0".to_string());
    l.insert("alpha".to_string(), "2.2.0".to_string());
    l
}

#[test]
fn list_insert_and_contains() {
    let l = sample_list();
    assert!(l.contains_version("alpha", "2.1.0"));
    assert!(l.contains_version("alpha", "2.2.0"));
    assert!(l.contains_version("beta", "1.0.0"));
    assert!(!l.contains_version("alpha", "1.0.0"));
    assert!(!l.contains_version("gamma", "1.0.0"));
    assert!(l.contains_name(&"beta".to_string()));
    assert!(!l.contains_name(&"gamma".to_string()));
}

#[test]
fn list_insert_twice_keeps_one_pair() {
    let mut l = PackageList::new();
    l.insert("a".to_string(), "1".to_string());
    l.insert("a".to_string(), "1".to_string());
    assert_eq!(l.package_refs().len(), 1);
}

#[test]
fn list_into_vec_sorted_unique() {
    let l = sample_list();
    let names = l.into_vec();
    assert_eq!(names, vec!["alpha".to_string(), "beta".to_string()]);
}

#[test]
fn list_union_prefers_other() {
    let l = sample_list();
    let mut newer = PackageList::new();
    newer.insert("alpha".to_string(), "3.0.0".to_string());
    newer.insert("gamma".to_string(), "0.1.0".to_string());
    let u = l.union(newer);
    // alpha is wholly replaced by the other list's versions
    assert!(u.contains_version("alpha", "3.0.0"));
    assert!(!u.contains_version("alpha", "2.1.0"));
    assert!(u.contains_version("beta", "1.0.0"));
    assert!(u.contains_version("gamma", "0.1.0"));
}

#[test]
fn list_difference_removes_names() {
    let l = sample_list();
    let mut installed = PackageList::new();
    installed.insert("alpha".to_string(), "9.9.9".to_string());
    let d = l.difference(installed);
    // any version under a removed name goes, whole names remain
    assert!(!d.contains_version("alpha", "2.1.0"));
    assert!(!d.contains_version("alpha", "2.2.0"));
    assert!(d.contains_version("beta", "1.0.0"));
    assert_eq!(d.into_vec(), vec!["beta".to_string()]);
}

#[test]
fn package_refs_lists_pairs() {
    let l = sample_list();
    let refs = l.package_refs();
    assert_eq!(refs.len(), 3);
    assert!(refs.iter().any(|r| r.name == "alpha" && r.version == "2.1.0"));
    assert!(refs.iter().any(|r| r.name == "alpha" && r.version == "2.2.0"));
    assert!(refs.iter().any(|r| r.name == "beta" && r.version == "1.0.0"));
}

#[test]
fn translate_flags_values() {
    let flags = vec![
        "allowSudo".to_string(),
        "allowWriteNative".to_string(),
        "isSubjective".to_string(),
        "allowWriteSubjective".to_string(),
        "canNotTimeOut".to_string(),
        "canSetTimeLimit".to_string(),
        "isAuthService".to_string(),
    ];
    assert_eq!(translate_flags(&flags), Ok(0x7F));
    assert_eq!(translate_flags(&vec![]), Ok(0));
    assert_eq!(
        translate_flags(&vec!["allowSudo".to_string(), "isAuthService".to_string()]),
        Ok(0x41)
    );
}

#[test]
fn translate_flags_rejects_unknown() {
    let flags = vec!["allowSudo".to_string(), "fliesToTheMoon".to_string()];
    assert_eq!(translate_flags(&flags), Err(PkgError::InvalidFlags));
}

#[test]
fn package_info_meta_projects_fields() {
    let info = PackageInfo {
        name: "tokens".to_string(),
        version: "1.2.3".to_string(),
        description: "a token service".to_string(),
        depends: vec![PackageRef { name: "base".to_string(), version: "1.0.0".to_string() }],
        accounts: vec!["tokens".to_string(), "tokens-admin".to_string()],
        sha256: Checksum256 { digest: vec![0; 32] },
        file: "tokens-1.2.3.zip".to_string(),
    };
    let m = info.meta();
    assert_eq!(m.name, "tokens");
    assert_eq!(m.version, "1.2.3");
    assert_eq!(m.description, "a token service");
    assert_eq!(m.depends.len(), 1);
    assert_eq!(m.depends[0].name, "base");
    assert_eq!(m.accounts, vec!["tokens".to_string(), "tokens-admin".to_string()]);
}

#[test]
fn directory_registry_holds_its_root() {
    let r = DirectoryRegistry::new("/srv/packages".to_string());
    assert_eq!(r.dir, "/srv/packages");
}

#[test]
fn hex_rendering() {
    assert_eq!(to_hex(&[]), b"".to_vec());
    assert_eq!(to_hex(&[0x00, 0x0F, 0xA5, 0xFF]), b"000fa5ff".to_vec());
    assert_eq!(to_hex(&[0xDE, 0xAD, 0xBE, 0xEF]), b"deadbeef".to_vec());
}

#[test]
fn upload_path_normalization() {
    assert_eq!(normalize_upload_path(&None), b"".to_vec());
    assert_eq!(
        normalize_upload_path(&Some(b"a/b".to_vec())),
        b"/a/b".to_vec()
    );
    assert_eq!(
        normalize_upload_path(&Some(b"/a/b/".to_vec())),
        b"/a/b".to_vec()
    );
    assert_eq!(
        normalize_upload_path(&Some(b"dir///".to_vec())),
        b"/dir".to_vec()
    );
    assert_eq!(normalize_upload_path(&Some(b"".to_vec())), b"".to_vec());
    assert_eq!(normalize_upload_path(&Some(b"/".to_vec())), b"".to_vec());
}
