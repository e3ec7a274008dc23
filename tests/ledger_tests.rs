use winbindiff::diff_config::ConfigFile;
use winbindiff::git::{GitError, GitHelper, MergeStep};
use winbindiff::progress::{ledger_path, BinaryProgressStore, StorageProvider, Store};

#[test]
fn add_twice_is_idempotent() {
    let mut once = BinaryProgressStore::new();
    once.add("ntdll.dll", "h1");
    let mut twice = BinaryProgressStore::new();
    twice.add("ntdll.dll", "h1");
    twice.add("ntdll.dll", "h1");
    for (n, h) in [("ntdll.dll", "h1"), ("ntdll.dll", "h2"), ("other", "h1")] {
        assert_eq!(once.is_in_index(n, h), twice.is_in_index(n, h));
        assert_eq!(once.none_indexed(n), twice.none_indexed(n));
    }
    assert!(twice.is_in_index("ntdll.dll", "h1"));
}

#[test]
fn none_indexed_until_first_add() {
    let mut s = BinaryProgressStore::new();
    assert!(s.none_indexed("ntdll.dll"));
    assert!(!s.is_in_index("ntdll.dll", "h1"));
    assert!(s.none_indexed("ntdll.dll"));
    s.add("kernel32.dll", "k1");
    assert!(s.none_indexed("ntdll.dll"));
    s.add("ntdll.dll", "h1");
    assert!(!s.none_indexed("ntdll.dll"));
    assert!(s.is_in_index("ntdll.dll", "h1"));
    assert!(!s.is_in_index("ntdll.dll", "k1"));
}

#[test]
fn ledger_entries_round_trip() {
    let entries = vec![
        ("a".to_string(), vec!["1".to_string(), "2".to_string()]),
        ("b".to_string(), vec![]),
        ("a".to_string(), vec!["3".to_string()]),
    ];
    let s = BinaryProgressStore::from_entries(&entries);
    assert!(s.is_in_index("a", "3"));
    assert!(s.is_in_index("a", "1"));
    assert!(s.none_indexed("b"));
    assert_eq!(s.entries().clone(), vec![("a".to_string(), vec!["1".to_string(), "2".to_string(), "3".to_string()])]);
}

#[test]
fn branch_store_created_once() {
    let mut provider = StorageProvider::with_store(ledger_path("/store"), Store::new("/store"));
    assert_eq!(provider.path, "/store/progress.yaml");
    provider.get_or_create_branch_store("main").add("ntdll.dll", "h1");
    provider.get_or_create_branch_store("insider");
    assert!(provider.get_or_create_branch_store("main").is_in_index("ntdll.dll", "h1"));
    assert!(provider.get_or_create_branch_store("insider").none_indexed("ntdll.dll"));
    assert_eq!(provider.store.branches.len(), 2);
    assert_eq!(provider.store.store_path, "/store");
}

#[test]
fn config_sync_jobs() {
    let mut c = ConfigFile::default_config();
    assert_eq!(c.store_dir, "../sample/store");
    assert_eq!(c.repo_dir, "../sample/repos");
    assert!(c.sync_jobs().is_empty());
    c.branches.push((
        "insider".to_string(),
        winbindiff::diff_config::BranchConfig {
            repo_url: "https://example.org/winbindex-insider".to_string(),
            branch: "gh-pages".to_string(),
            data_dir: "data".to_string(),
            files: vec!["ntdll.dll".to_string()],
        },
    ));
    let jobs = c.sync_jobs();
    assert_eq!(jobs.len(), 1);
    assert_eq!(jobs[0].clone_path(), "../sample/repos/insider");
    assert_eq!(jobs[0].branch_ref(), "refs/heads/gh-pages");
    assert_eq!(jobs[0].url, "https://example.org/winbindex-insider");
}

#[test]
fn merge_decisions() {
    assert_eq!(GitHelper::merge_step(true, false), Ok(MergeStep::UpToDate));
    assert_eq!(GitHelper::merge_step(true, true), Ok(MergeStep::UpToDate));
    assert_eq!(GitHelper::merge_step(false, true), Ok(MergeStep::FastForward));
    assert_eq!(GitHelper::merge_step(false, false), Err(GitError::RepoFetchFailed));
}
