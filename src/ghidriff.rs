//! Where binaries and diffs are stored, and how the external diff tool is
//! invoked on each adjacent pair of a version-ordered batch.

use vstd::prelude::*;
use vstd::string::*;
use crate::text::{join, join_path};
use crate::winbindex::{Arch, WinbindexEntry, arch_name, dlname_spec, downloadable, download_url_spec};

verus! {

/// The executable of the external diff tool.
pub const DIFF_TOOL: &'static str = "ghidriff";

/// Why downloading or diffing a batch failed.
#[derive(Debug)]
pub enum GhidriffError {
    GhidraProjectDirectoryCreation,
    DiffProjectDirectoryCreation,
    BinaryDownloadDirectoryCreation,
    WinbindexEntryNoURL,
    Reqwest(String),
    FileWrite(String),
}

/// What to do to have one binary on disk.
#[derive(Debug)]
pub enum DownloadAction {
    /// The file is already there: nothing is fetched.
    Skip,
    /// Fetch `url` and write it to `dest`.
    Fetch { url: String, dest: String },
}

/// The storage of the diffs of one binary, in one branch, for one
/// architecture.
#[derive(Debug)]
pub struct GhidriffDiffingProject {
    pub store_path: String,
    pub winbindex_instance: String,
    pub binary_name: String,
    pub arch: Arch,
}

/// The arguments of the diff tool for one pair: the shared analysis cache,
/// the output directory, the fixed flags, then the older and newer binary.
pub open spec fn invocation_args(
    projects: Seq<char>,
    output: Seq<char>,
    older: Seq<char>,
    newer: Seq<char>,
) -> Seq<Seq<char>> {
    seq![
        "-p"@,
        projects,
        "-o"@,
        output,
        "--force-analysis"@,
        "--engine"@,
        "VersionTrackingDiff"@,
        older,
        newer,
    ]
}

/// The text of each string of `v`.
pub open spec fn strings_view(v: Vec<String>) -> Seq<Seq<char>> {
    v@.map_values(|s: String| s@)
}

impl GhidriffDiffingProject {
    /// The project of binary `binary_name` of branch `winbindex_instance`
    /// for `arch`, under store directory `store_path`.
    pub fn new(store_path: &str, winbindex_instance: &str, binary_name: &str, arch: Arch) -> (r: Self)
        ensures
            r.store_path@ == store_path@,
            r.winbindex_instance@ == winbindex_instance@,
            r.binary_name@ == binary_name@,
            r.arch == arch,
    {
        GhidriffDiffingProject {
            store_path: String::from_str(store_path),
            winbindex_instance: String::from_str(winbindex_instance),
            binary_name: String::from_str(binary_name),
            arch,
        }
    }

    pub open spec fn download_dir_spec(&self) -> Seq<char> {
        join_path(
            join_path(join_path(self.store_path@, "binaries"@), self.winbindex_instance@),
            self.binary_name@,
        )
    }

    pub open spec fn projects_dir_spec(&self) -> Seq<char> {
        join_path(self.store_path@, "ghidra_projects"@)
    }

    pub open spec fn output_dir_spec(&self) -> Seq<char> {
        join_path(
            join_path(
                join_path(join_path(self.store_path@, "diffs"@), self.winbindex_instance@),
                arch_name(self.arch),
            ),
            self.binary_name@,
        )
    }

    pub open spec fn binary_path_spec(&self, e: WinbindexEntry) -> Seq<char> {
        join_path(self.download_dir_spec(), dlname_spec(e))
    }

    /// `<store>/binaries/<branch>/<binary>`, where the binaries are kept.
    pub fn binary_download_dir(&self) -> (r: String)
        ensures
            r@ == self.download_dir_spec(),
    {
        let a = join(self.store_path.as_str(), "binaries");
        let b = join(a.as_str(), self.winbindex_instance.as_str());
        join(b.as_str(), self.binary_name.as_str())
    }

    /// `<store>/ghidra_projects`, the analysis cache shared by all runs.
    pub fn ghidra_projects_dir(&self) -> (r: String)
        ensures
            r@ == self.projects_dir_spec(),
    {
        join(self.store_path.as_str(), "ghidra_projects")
    }

    /// `<store>/diffs/<branch>/<arch>/<binary>`, where the diffs are written.
    pub fn diff_output_dir(&self) -> (r: String)
        ensures
            r@ == self.output_dir_spec(),
    {
        let a = join(self.store_path.as_str(), "diffs");
        let b = join(a.as_str(), self.winbindex_instance.as_str());
        let arch = self.arch.name();
        let c = join(b.as_str(), arch.as_str());
        join(c.as_str(), self.binary_name.as_str())
    }

    /// `<download dir>/<hash>_<name>`, where the binary of `e` is kept.
    pub fn binary_path(&self, e: &WinbindexEntry) -> (r: String)
        ensures
            r@ == self.binary_path_spec(*e),
    {
        let dir = self.binary_download_dir();
        let name = e.get_binary_dlname();
        join(dir.as_str(), name.as_str())
    }

    /// What to do to have the binary of `e` on disk, given whether its file
    /// already exists: an existing file is kept and nothing is fetched; a
    /// record without a download URL is an error.
    pub fn plan_download(&self, e: &WinbindexEntry, dest_exists: bool) -> (r: Result<
        DownloadAction,
        GhidriffError,
    >)
        ensures
            !downloadable(*e) ==> r matches Err(GhidriffError::WinbindexEntryNoURL),
            downloadable(*e) && dest_exists ==> r matches Ok(DownloadAction::Skip),
            downloadable(*e) && !dest_exists ==> match r {
                Ok(DownloadAction::Fetch { url, dest }) => {
                    &&& url@ == download_url_spec(e.name@, e.timestamp->0, e.virtual_size->0)
                    &&& dest@ == self.binary_path_spec(*e)
                },
                _ => false,
            },
    {
        match e.get_download_url() {
            None => Err(GhidriffError::WinbindexEntryNoURL),
            Some(u) => {
                if dest_exists {
                    Ok(DownloadAction::Skip)
                } else {
                    Ok(DownloadAction::Fetch { url: u.url, dest: self.binary_path(e) })
                }
            },
        }
    }

    /// The diff tool's arguments for each adjacent pair of `entries`, older
    /// first: `n` entries give `n - 1` invocations.
    pub fn diff_invocations(&self, entries: &Vec<WinbindexEntry>) -> (r: Vec<Vec<String>>)
        ensures
            r@.len() == if entries@.len() == 0 { 0 } else { entries@.len() - 1 },
            forall|k: int|
                0 <= k < r@.len() ==> strings_view(#[trigger] r@[k]) == invocation_args(
                    self.projects_dir_spec(),
                    self.output_dir_spec(),
                    self.binary_path_spec(entries@[k]),
                    self.binary_path_spec(entries@[k + 1]),
                ),
    {
        let projects = self.ghidra_projects_dir();
        let output = self.diff_output_dir();
        let mut r: Vec<Vec<String>> = Vec::new();
        let mut k: usize = 0;
        while entries.len() > 0 && k < entries.len() - 1
            invariant
                k <= entries@.len(),
                entries@.len() == 0 || k < entries@.len(),
                r@.len() == k,
                projects@ == self.projects_dir_spec(),
                output@ == self.output_dir_spec(),
                forall|j: int|
                    0 <= j < r@.len() ==> strings_view(#[trigger] r@[j]) == invocation_args(
                        self.projects_dir_spec(),
                        self.output_dir_spec(),
                        self.binary_path_spec(entries@[j]),
                        self.binary_path_spec(entries@[j + 1]),
                    ),
            decreases entries@.len() - k,
        {
            let older = self.binary_path(&entries[k]);
            let newer = self.binary_path(&entries[k + 1]);
            let mut args: Vec<String> = Vec::new();
            args.push(String::from_str("-p"));
            args.push(projects.clone());
            args.push(String::from_str("-o"));
            args.push(output.clone());
            args.push(String::from_str("--force-analysis"));
            args.push(String::from_str("--engine"));
            args.push(String::from_str("VersionTrackingDiff"));
            args.push(older);
            args.push(newer);
            assert(strings_view(args) =~= invocation_args(
                self.projects_dir_spec(),
                self.output_dir_spec(),
                self.binary_path_spec(entries@[k as int]),
                self.binary_path_spec(entries@[k + 1]),
            ));
            r.push(args);
            k = k + 1;
        }
        r
    }
}

} // verus!
