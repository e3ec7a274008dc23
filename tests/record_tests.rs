use winbindiff::feed::{Winbindex, WinbindexError, WinbindexFileData};
use winbindiff::version::BinaryVersion;
use winbindiff::winbindex::{
    version_of_builds, Arch, Build, FeedBody, FileInfo, WindowsVersion, WinbindexEntry,
};
use std::io::Write;

fn body(machine: u64, ts: Option<i64>, size: Option<i64>, versions: &[&str]) -> FeedBody {
    FeedBody {
        file_info: Some(FileInfo {
            size: Some(4096),
            machine_type: Some(machine),
            timestamp: ts,
            virtual_size: size,
        }),
        windows_version: WindowsVersion {
            builds: Some(vec![Build {
                assembly_versions: versions.iter().map(|s| s.to_string()).collect(),
            }]),
        },
    }
}

#[test]
fn arch_from_machine_type_table() {
    assert_eq!(Arch::from_machine_type(Some(0x8664)), Arch::Amd64);
    assert_eq!(Arch::from_machine_type(Some(0x14c)), Arch::X86);
    assert_eq!(Arch::from_machine_type(Some(0x1c4)), Arch::Arm);
    assert_eq!(Arch::from_machine_type(Some(0xaa64)), Arch::Arm64);
    assert_eq!(Arch::from_machine_type(Some(0x200)), Arch::Invalid);
    assert_eq!(Arch::from_machine_type(None), Arch::Invalid);
}

#[test]
fn arch_names_round_trip() {
    for a in [Arch::X86, Arch::Amd64, Arch::Arm64, Arch::Arm] {
        assert_eq!(Arch::from_name(&a.name()), a);
    }
    assert_eq!(Arch::Invalid.name(), "Invalid");
    assert_eq!(Arch::from_name("mips"), Arch::Invalid);
    assert_eq!(Arch::from("arm64"), Arch::Arm64);
}

#[test]
fn record_takes_hash_from_key_and_derives_fields() {
    let b = body(0x8664, Some(0x12ab), Some(0x1f000), &["10.0.19041.1"]);
    let e = WinbindexEntry::from_body(&"abc123".to_string(), &b, &"ntdll.dll".to_string(), &"insider".to_string())
        .unwrap();
    assert_eq!(e.sha256, "abc123");
    assert_eq!(e.get_sha256(), "abc123");
    assert_eq!(e.get_name(), "ntdll.dll");
    assert_eq!(e.repo, "insider");
    assert_eq!(e.get_arch(), Arch::Amd64);
    assert_eq!(e.get_version().format(), "10.0.19041.1");
    assert_eq!(e.get_timestamp(), Some(0x12ab));
    assert_eq!(e.get_binary_dlname(), "abc123_ntdll.dll");
}

#[test]
fn download_url_exact() {
    let b = body(0x8664, Some(0x12ab), Some(0x1f000), &["1.0.0.1"]);
    let e = WinbindexEntry::from_body(&"h".to_string(), &b, &"ntdll.dll".to_string(), &"b".to_string()).unwrap();
    assert_eq!(
        e.get_download_url().unwrap().url,
        "https://msdl.microsoft.com/download/symbols/ntdll.dll/000012AB1f000/ntdll.dll"
    );
    let b = body(0x8664, Some(0x5E0EB7A6), Some(0xABCDEF), &["1.0.0.1"]);
    let e = WinbindexEntry::from_body(&"h".to_string(), &b, &"x.sys".to_string(), &"b".to_string()).unwrap();
    assert_eq!(
        e.get_download_url().unwrap().url,
        "https://msdl.microsoft.com/download/symbols/x.sys/5E0EB7A6abcdef/x.sys"
    );
}

#[test]
fn download_url_needs_timestamp_and_image_size() {
    let b = body(0x8664, Some(1), None, &["1.0.0.1"]);
    let e = WinbindexEntry::from_body(&"h".to_string(), &b, &"n".to_string(), &"b".to_string()).unwrap();
    assert!(e.get_download_url().is_none());
    let mut e2 = e.clone();
    e2.virtual_size = Some(16);
    e2.timestamp = None;
    assert!(e2.get_download_url().is_none());
}

#[test]
fn body_without_size_or_timestamp_is_dropped() {
    let mut b = body(0x8664, None, Some(1), &["1.0.0.1"]);
    assert!(WinbindexEntry::from_body(&"h".to_string(), &b, &"n".to_string(), &"b".to_string()).is_none());
    b.file_info.as_mut().unwrap().timestamp = Some(1);
    b.file_info.as_mut().unwrap().size = None;
    assert!(WinbindexEntry::from_body(&"h".to_string(), &b, &"n".to_string(), &"b".to_string()).is_none());
    b.file_info = None;
    assert!(WinbindexEntry::from_body(&"h".to_string(), &b, &"n".to_string(), &"b".to_string()).is_none());
}

#[test]
fn version_from_first_assembly_or_unknown() {
    let wv = WindowsVersion {
        builds: Some(vec![
            Build { assembly_versions: vec![] },
            Build { assembly_versions: vec!["6.1.7601.2".to_string(), "9.9.9.9".to_string()] },
        ]),
    };
    assert_eq!(version_of_builds(&wv).format(), "6.1.7601.2");
    let bad = WindowsVersion { builds: Some(vec![Build { assembly_versions: vec!["6.1".to_string()] }]) };
    assert_eq!(version_of_builds(&bad), BinaryVersion::unknown());
    assert_eq!(version_of_builds(&WindowsVersion { builds: None }), BinaryVersion::unknown());
    assert_eq!(version_of_builds(&WindowsVersion { builds: Some(vec![]) }), BinaryVersion::unknown());
}

#[test]
fn load_keeps_only_complete_bodies() {
    let bodies = vec![
        ("k1".to_string(), body(0x8664, Some(1), Some(2), &["1.0.0.1"])),
        ("k2".to_string(), body(0x8664, None, Some(2), &["1.0.0.2"])),
        ("k3".to_string(), FeedBody { file_info: None, windows_version: WindowsVersion { builds: None } }),
        ("k4".to_string(), body(0x14c, Some(3), None, &["1.0.0.3"])),
    ];
    let data = WinbindexFileData::from_bodies(&bodies, &"ntdll.dll".to_string(), &"main".to_string());
    let keys: Vec<&str> = data.data.iter().map(|e| e.sha256.as_str()).collect();
    assert_eq!(keys, vec!["k1", "k4"]);
    assert!(data.data.iter().all(|e| e.name == "ntdll.dll" && e.repo == "main"));
}

#[test]
fn feed_path_layout() {
    let wb = Winbindex::new("repos/insider", "data/by_filename_compressed");
    assert_eq!(wb.feed_path("ntdll.dll"), "repos/insider/data/by_filename_compressed/ntdll.dll.json.gz");
}

#[test]
fn decode_feed_decompresses() {
    let text = "{\"abc\": {}}";
    let mut enc = flate2::write::GzEncoder::new(Vec::new(), flate2::Compression::default());
    enc.write_all(text.as_bytes()).unwrap();
    let bytes = enc.finish().unwrap();
    assert_eq!(Winbindex::decode_feed(&bytes).unwrap(), text);
}

#[test]
fn decode_feed_rejects_garbage() {
    let bytes = b"not gzip at all".to_vec();
    assert!(matches!(Winbindex::decode_feed(&bytes), Err(WinbindexError::Gzip)));
}
