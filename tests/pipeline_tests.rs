use winbindiff::feed::WinbindexFileData;
use winbindiff::ghidriff::{DownloadAction, GhidriffDiffingProject, GhidriffError, DIFF_TOOL};
use winbindiff::orchestrate::{plan_binary, record_progress, DiffPlan};
use winbindiff::progress::BinaryProgressStore;
use winbindiff::version::BinaryVersion;
use winbindiff::winbindex::{Arch, WinbindexEntry};

fn rec(hash: &str, arch: Arch, version: &str, downloadable: bool) -> WinbindexEntry {
    WinbindexEntry {
        sha256: hash.to_string(),
        name: "ntdll.dll".to_string(),
        repo: "main".to_string(),
        arch,
        version: BinaryVersion::parse(version).unwrap(),
        size: 100,
        timestamp: Some(0x100),
        virtual_size: if downloadable { Some(0x2000) } else { None },
    }
}

fn three_amd64() -> WinbindexFileData {
    // Deliberately out of version order.
    WinbindexFileData::new(vec![
        rec("h3", Arch::Amd64, "1.0.0.3", true),
        rec("h1", Arch::Amd64, "1.0.0.1", true),
        rec("h2", Arch::Amd64, "1.0.0.2", true),
    ])
}

fn project() -> GhidriffDiffingProject {
    GhidriffDiffingProject::new("/store", "main", "ntdll.dll", Arch::Amd64)
}

fn hashes(es: &[WinbindexEntry]) -> Vec<String> {
    es.iter().map(|e| e.sha256.clone()).collect()
}

#[test]
fn predecessor_chain() {
    let feed = WinbindexFileData::new(vec![
        rec("c", Arch::Amd64, "1.0.0.3", true),
        rec("x", Arch::X86, "1.0.0.2", true),
        rec("a", Arch::Amd64, "1.0.0.1", true),
        rec("b", Arch::Amd64, "1.0.0.2", true),
    ]);
    let a = feed.data[2].clone();
    let b = feed.data[3].clone();
    let c = feed.data[0].clone();
    assert_eq!(feed.find_previous_for_entry(&c).unwrap().sha256, "b");
    assert_eq!(feed.find_previous_for_entry(&b).unwrap().sha256, "a");
    assert!(feed.find_previous_for_entry(&a).is_none());
}

#[test]
fn predecessor_of_unlisted_version_is_none() {
    let feed = three_amd64();
    let stranger = rec("z", Arch::Amd64, "1.0.0.9", true);
    assert!(feed.find_previous_for_entry(&stranger).is_none());
}

#[test]
fn predecessor_tie_takes_first_record() {
    let feed = WinbindexFileData::new(vec![
        rec("c", Arch::Amd64, "1.0.0.3", true),
        rec("b1", Arch::Amd64, "1.0.0.2", true),
        rec("b2", Arch::Amd64, "1.0.0.2", true),
    ]);
    let c = feed.data[0].clone();
    assert_eq!(feed.find_previous_for_entry(&c).unwrap().sha256, "b1");
}

#[test]
fn timeline_sorted_and_downloadable_only() {
    let feed = WinbindexFileData::new(vec![
        rec("h3", Arch::Amd64, "1.0.0.3", true),
        rec("nourl", Arch::Amd64, "1.0.0.0", false),
        rec("h1", Arch::Amd64, "1.0.0.1", true),
        rec("arm", Arch::Arm64, "1.0.0.2", true),
        rec("h2", Arch::Amd64, "1.0.0.2", true),
    ]);
    assert_eq!(hashes(&feed.timeline(Arch::Amd64)), vec!["h1", "h2", "h3"]);
    assert_eq!(hashes(&feed.timeline(Arch::Arm64)), vec!["arm"]);
    assert!(feed.timeline(Arch::X86).is_empty());
}

#[test]
fn new_binary_diffs_every_adjacent_pair() {
    let feed = three_amd64();
    let mut progress = BinaryProgressStore::new();
    let plan = plan_binary(&progress, &feed, "ntdll.dll");
    assert!(matches!(plan, DiffPlan::New { .. }));
    let batches = plan.diff_batches();
    let p = project();
    let mut invocations = Vec::new();
    for batch in &batches {
        invocations.extend(p.diff_invocations(&batch.entries));
    }
    assert_eq!(invocations.len(), 2);
    let old1 = "/store/binaries/main/ntdll.dll/h1_ntdll.dll";
    let old2 = "/store/binaries/main/ntdll.dll/h2_ntdll.dll";
    let new3 = "/store/binaries/main/ntdll.dll/h3_ntdll.dll";
    assert_eq!(invocations[0][7], old1);
    assert_eq!(invocations[0][8], old2);
    assert_eq!(invocations[1][7], old2);
    assert_eq!(invocations[1][8], new3);
    record_progress(&mut progress, "ntdll.dll", &plan);
    for h in ["h1", "h2", "h3"] {
        assert!(progress.is_in_index("ntdll.dll", h));
    }
    assert!(!progress.none_indexed("ntdll.dll"));
}

#[test]
fn tracked_binary_diffs_next_against_predecessor() {
    let feed = three_amd64();
    let mut progress = BinaryProgressStore::new();
    progress.add("ntdll.dll", "h1");
    progress.add("ntdll.dll", "h2");
    let plan = plan_binary(&progress, &feed, "ntdll.dll");
    match &plan {
        DiffPlan::Incremental { previous, next } => {
            assert_eq!(next.sha256, "h3");
            assert_eq!(previous.sha256, "h2");
        }
        _ => panic!("expected an incremental plan"),
    }
    let batches = plan.diff_batches();
    assert_eq!(batches.len(), 1);
    assert_eq!(batches[0].arch, Arch::Amd64);
    assert_eq!(project().diff_invocations(&batches[0].entries).len(), 1);
    record_progress(&mut progress, "ntdll.dll", &plan);
    assert!(progress.is_in_index("ntdll.dll", "h3"));
    assert_eq!(progress.entries().len(), 1);
    assert_eq!(progress.entries()[0].1, vec!["h1", "h2", "h3"]);
}

#[test]
fn tracked_minimum_version_is_left_for_later() {
    let feed = three_amd64();
    let mut progress = BinaryProgressStore::new();
    progress.add("ntdll.dll", "h2");
    progress.add("ntdll.dll", "h3");
    let plan = plan_binary(&progress, &feed, "ntdll.dll");
    match &plan {
        DiffPlan::NoPredecessor { next } => assert_eq!(next.sha256, "h1"),
        _ => panic!("expected no predecessor"),
    }
    assert!(plan.diff_batches().is_empty());
    record_progress(&mut progress, "ntdll.dll", &plan);
    assert!(!progress.is_in_index("ntdll.dll", "h1"));
    assert_eq!(progress.entries()[0].1, vec!["h2", "h3"]);
    let again = plan_binary(&progress, &feed, "ntdll.dll");
    assert!(matches!(again, DiffPlan::NoPredecessor { .. }));
}

#[test]
fn everything_indexed_is_up_to_date() {
    let feed = three_amd64();
    let mut progress = BinaryProgressStore::new();
    for h in ["h1", "h2", "h3"] {
        progress.add("ntdll.dll", h);
    }
    let plan = plan_binary(&progress, &feed, "ntdll.dll");
    assert!(matches!(plan, DiffPlan::UpToDate));
    assert!(plan.diff_batches().is_empty());
}

#[test]
fn new_binary_batches_skip_undownloadable() {
    let feed = WinbindexFileData::new(vec![
        rec("a", Arch::Amd64, "1.0.0.1", true),
        rec("b", Arch::Amd64, "1.0.0.2", false),
        rec("c", Arch::X86, "1.0.0.1", true),
    ]);
    let mut progress = BinaryProgressStore::new();
    let plan = plan_binary(&progress, &feed, "ntdll.dll");
    let batches = plan.diff_batches();
    let all: Vec<String> = batches.iter().flat_map(|b| hashes(&b.entries)).collect();
    assert_eq!(all, vec!["a", "c"]);
    assert!(batches.iter().all(|b| b.entries.iter().all(|e| e.get_download_url().is_some())));
    record_progress(&mut progress, "ntdll.dll", &plan);
    assert!(progress.is_in_index("ntdll.dll", "a"));
    assert!(progress.is_in_index("ntdll.dll", "c"));
    assert!(!progress.is_in_index("ntdll.dll", "b"));
}

#[test]
fn download_skips_existing_file() {
    let e = rec("h1", Arch::Amd64, "1.0.0.1", true);
    assert!(matches!(project().plan_download(&e, true), Ok(DownloadAction::Skip)));
    match project().plan_download(&e, false) {
        Ok(DownloadAction::Fetch { url, dest }) => {
            assert_eq!(url, "https://msdl.microsoft.com/download/symbols/ntdll.dll/000001002000/ntdll.dll");
            assert_eq!(dest, "/store/binaries/main/ntdll.dll/h1_ntdll.dll");
        }
        _ => panic!("expected a fetch"),
    }
    let no_url = rec("h2", Arch::Amd64, "1.0.0.2", false);
    assert!(matches!(project().plan_download(&no_url, false), Err(GhidriffError::WinbindexEntryNoURL)));
}

#[test]
fn directories_and_arguments() {
    let p = project();
    assert_eq!(p.binary_download_dir(), "/store/binaries/main/ntdll.dll");
    assert_eq!(p.ghidra_projects_dir(), "/store/ghidra_projects");
    assert_eq!(p.diff_output_dir(), "/store/diffs/main/amd64/ntdll.dll");
    let es = vec![rec("h1", Arch::Amd64, "1.0.0.1", true), rec("h2", Arch::Amd64, "1.0.0.2", true)];
    let inv = p.diff_invocations(&es);
    assert_eq!(
        inv,
        vec![vec![
            "-p",
            "/store/ghidra_projects",
            "-o",
            "/store/diffs/main/amd64/ntdll.dll",
            "--force-analysis",
            "--engine",
            "VersionTrackingDiff",
            "/store/binaries/main/ntdll.dll/h1_ntdll.dll",
            "/store/binaries/main/ntdll.dll/h2_ntdll.dll",
        ]]
    );
    assert!(p.diff_invocations(&vec![]).is_empty());
    assert!(p.diff_invocations(&vec![es[0].clone()]).is_empty());
    assert_eq!(DIFF_TOOL, "ghidriff");
}
