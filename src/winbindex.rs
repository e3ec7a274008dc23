//! Feed records: architecture, version and download location of each build
//! of a binary, and the per-binary set of records loaded from the feed.

use vstd::prelude::*;
use vstd::string::*;
use crate::text::{push_char, push_hex, push_hex_upper_pad8, hex, pad8};
use crate::version::{BinaryVersion, parse_spec, unknown_version};

verus! {

/// CPU target of a binary.
#[derive(Debug, Clone, Copy, PartialEq, Eq, Hash, Structural)]
pub enum Arch {
    X86,
    Amd64,
    Arm64,
    Arm,
    Invalid,
}

/// The architecture that a PE machine-type code stands for.
pub open spec fn arch_of_machine(machine_type: Option<u64>) -> Arch {
    match machine_type {
        Some(0x8664) => Arch::Amd64,
        Some(0x14c) => Arch::X86,
        Some(0x1c4) => Arch::Arm,
        Some(0xaa64) => Arch::Arm64,
        _ => Arch::Invalid,
    }
}

/// The name of an architecture.
pub open spec fn arch_name(a: Arch) -> Seq<char> {
    match a {
        Arch::Amd64 => "amd64"@,
        Arch::Arm64 => "arm64"@,
        Arch::Arm => "arm"@,
        Arch::X86 => "x86"@,
        Arch::Invalid => "Invalid"@,
    }
}

/// The architecture that a name stands for.
pub open spec fn arch_of_name(name: Seq<char>) -> Arch {
    if name == "x86"@ {
        Arch::X86
    } else if name == "amd64"@ {
        Arch::Amd64
    } else if name == "arm64"@ {
        Arch::Arm64
    } else if name == "arm"@ {
        Arch::Arm
    } else {
        Arch::Invalid
    }
}

impl Arch {
    /// The architecture of a PE machine-type code: 0x8664 amd64, 0x14c x86,
    /// 0x1c4 arm, 0xaa64 arm64, anything else (or none) invalid.
    pub fn from_machine_type(machine_type: Option<u64>) -> (r: Arch)
        ensures
            r == arch_of_machine(machine_type),
    {
        match machine_type {
            Some(0x8664) => Arch::Amd64,
            Some(0x14c) => Arch::X86,
            Some(0x1c4) => Arch::Arm,
            Some(0xaa64) => Arch::Arm64,
            _ => Arch::Invalid,
        }
    }

    /// The architecture named `x86`, `amd64`, `arm64` or `arm`; any other name
    /// is invalid.
    pub fn from_name(name: &str) -> (r: Arch)
        ensures
            r == arch_of_name(name@),
    {
        let n = String::from_str(name);
        if n == String::from_str("x86") {
            Arch::X86
        } else if n == String::from_str("amd64") {
            Arch::Amd64
        } else if n == String::from_str("arm64") {
            Arch::Arm64
        } else if n == String::from_str("arm") {
            Arch::Arm
        } else {
            Arch::Invalid
        }
    }

    /// The name of the architecture, as used in output directories.
    pub fn name(&self) -> (r: String)
        ensures
            r@ == arch_name(*self),
    {
        match self {
            Arch::Amd64 => String::from_str("amd64"),
            Arch::Arm64 => String::from_str("arm64"),
            Arch::Arm => String::from_str("arm"),
            Arch::X86 => String::from_str("x86"),
            Arch::Invalid => String::from_str("Invalid"),
        }
    }
}

impl<'a> From<&'a str> for Arch {
    /// The architecture a name stands for; see `Arch::from_name`.
    fn from(name: &'a str) -> (r: Arch) {
        Arch::from_name(name)
    }
}

impl<'a> vstd::std_specs::convert::FromSpecImpl<&'a str> for Arch {
    open spec fn obeys_from_spec() -> bool {
        true
    }

    open spec fn from_spec(name: &'a str) -> Arch {
        arch_of_name(name@)
    }
}

/// The identity fields of a feed body, as plain values. Numbers that are
/// absent, or that do not fit the field's type, are `None`.
#[derive(Debug)]
pub struct FileInfo {
    pub size: Option<u64>,
    pub machine_type: Option<u64>,
    pub timestamp: Option<i64>,
    pub virtual_size: Option<i64>,
}

/// One build that ships the binary: the version strings of its assemblies,
/// in the order the feed lists them.
#[derive(Debug)]
pub struct Build {
    pub assembly_versions: Vec<String>,
}

/// The builds that ship the binary, if the feed lists any.
#[derive(Debug)]
pub struct WindowsVersion {
    pub builds: Option<Vec<Build>>,
}

/// The body of one feed entry, before it is keyed by its content hash.
#[derive(Debug)]
pub struct FeedBody {
    pub file_info: Option<FileInfo>,
    pub windows_version: WindowsVersion,
}

/// The first assembly version string of the first build that has one.
pub open spec fn first_assembly_version(builds: Seq<Build>) -> Option<Seq<char>>
    decreases builds.len(),
{
    if builds.len() == 0 {
        None
    } else if builds[0].assembly_versions@.len() > 0 {
        Some(builds[0].assembly_versions@[0]@)
    } else {
        first_assembly_version(builds.drop_first())
    }
}

/// The version of a body: its first assembly version string, parsed, or the
/// unknown marker where there is none or it does not parse.
pub open spec fn version_of(wv: WindowsVersion) -> BinaryVersion {
    match wv.builds {
        None => unknown_version(),
        Some(builds) => match first_assembly_version(builds@) {
            None => unknown_version(),
            Some(s) => match parse_spec(s) {
                Some(v) => v,
                None => unknown_version(),
            },
        },
    }
}

/// A body is kept at load time when it has identity fields with a size and a
/// timestamp.
pub open spec fn body_kept(body: FeedBody) -> bool {
    &&& body.file_info is Some
    &&& body.file_info->0.size is Some
    &&& body.file_info->0.timestamp is Some
}

/// A canonical feed record. Its content hash is the feed key; architecture and
/// version are derived once, when the record is made.
#[derive(Debug)]
pub struct WinbindexEntry {
    pub sha256: String,
    pub name: String,
    pub repo: String,
    pub arch: Arch,
    pub version: BinaryVersion,
    pub size: u64,
    pub timestamp: Option<i64>,
    pub virtual_size: Option<i64>,
}

impl Clone for WinbindexEntry {
    fn clone(&self) -> (r: Self)
        ensures
            r == *self,
    {
        WinbindexEntry {
            sha256: self.sha256.clone(),
            name: self.name.clone(),
            repo: self.repo.clone(),
            arch: self.arch,
            version: self.version,
            size: self.size,
            timestamp: self.timestamp,
            virtual_size: self.virtual_size,
        }
    }
}

/// The record that a kept `body`, under feed key `key`, makes for binary
/// `name` of branch `repo`.
pub open spec fn record_of(key: String, body: FeedBody, name: String, repo: String) -> WinbindexEntry {
    WinbindexEntry {
        sha256: key,
        name: name,
        repo: repo,
        arch: arch_of_machine(body.file_info->0.machine_type),
        version: version_of(body.windows_version),
        size: body.file_info->0.size->0,
        timestamp: body.file_info->0.timestamp,
        virtual_size: body.file_info->0.virtual_size,
    }
}

/// The symbol server that serves the binaries.
pub open spec fn symbol_server_prefix() -> Seq<char> {
    "https://msdl.microsoft.com/download/symbols/"@
}

/// `https://<server>/download/symbols/<name>/<timestamp><image size>/<name>`,
/// the timestamp as eight or more upper-case hex digits, the image size in
/// lower-case hex, both as their 64-bit patterns.
pub open spec fn download_url_spec(name: Seq<char>, timestamp: i64, image_size: i64) -> Seq<
    char,
> {
    symbol_server_prefix() + name + seq!['/'] + pad8(hex(timestamp as u64 as nat, true)) + hex(
        image_size as u64 as nat,
        false,
    ) + seq!['/'] + name
}

/// A record can be downloaded when it has both a timestamp and an image size.
pub open spec fn downloadable(e: WinbindexEntry) -> bool {
    e.timestamp is Some && e.virtual_size is Some
}

/// The name a downloaded binary is stored under: `<hash>_<name>`.
pub open spec fn dlname_spec(e: WinbindexEntry) -> Seq<char> {
    e.sha256@ + seq!['_'] + e.name@
}

/// Where a build of a binary can be fetched from.
#[derive(Debug)]
pub struct SymbolServerDownloadUrl {
    pub url: String,
}

fn first_version_string(builds: &Vec<Build>) -> (r: Option<&String>)
    ensures
        match r {
            None => first_assembly_version(builds@) is None,
            Some(s) => first_assembly_version(builds@) == Some(s@),
        },
{
    let mut i: usize = 0;
    assert(builds@.subrange(0, builds@.len() as int) =~= builds@);
    while i < builds.len()
        invariant
            i <= builds@.len(),
            first_assembly_version(builds@) == first_assembly_version(
                builds@.subrange(i as int, builds@.len() as int),
            ),
        decreases builds@.len() - i,
    {
        let ghost rest = builds@.subrange(i as int, builds@.len() as int);
        assert(rest.drop_first() =~= builds@.subrange(i + 1, builds@.len() as int));
        if builds[i].assembly_versions.len() > 0 {
            return Some(&builds[i].assembly_versions[0]);
        }
        i = i + 1;
    }
    None
}

/// The version of a body: the first assembly version string parsed, else the
/// unknown marker.
pub fn version_of_builds(wv: &WindowsVersion) -> (r: BinaryVersion)
    ensures
        r == version_of(*wv),
{
    match &wv.builds {
        None => BinaryVersion::unknown(),
        Some(builds) => match first_version_string(builds) {
            None => BinaryVersion::unknown(),
            Some(s) => match BinaryVersion::parse(s.as_str()) {
                Some(v) => v,
                None => BinaryVersion::unknown(),
            },
        },
    }
}

impl WinbindexEntry {
    /// Makes the record of a feed body under its key, for binary `name` of
    /// branch `repo`; `None` where the body lacks a size or a timestamp.
    pub fn from_body(key: &String, body: &FeedBody, name: &String, repo: &String) -> (r: Option<
        WinbindexEntry,
    >)
        ensures
            r == (if body_kept(*body) {
                Some(record_of(*key, *body, *name, *repo))
            } else {
                None
            }),
    {
        match &body.file_info {
            None => None,
            Some(fi) => match (fi.size, fi.timestamp) {
                (Some(size), Some(_)) => Some(
                    WinbindexEntry {
                        sha256: key.clone(),
                        name: name.clone(),
                        repo: repo.clone(),
                        arch: Arch::from_machine_type(fi.machine_type),
                        version: version_of_builds(&body.windows_version),
                        size,
                        timestamp: fi.timestamp,
                        virtual_size: fi.virtual_size,
                    },
                ),
                _ => None,
            },
        }
    }

    /// The name a downloaded copy is stored under: `<hash>_<name>`.
    pub fn get_binary_dlname(&self) -> (r: String)
        ensures
            r@ == dlname_spec(*self),
    {
        let mut r = self.sha256.clone();
        push_char(&mut r, '_');
        r.append(self.name.as_str());
        assert(r@ =~= dlname_spec(*self));
        r
    }

    /// The architecture of the build.
    pub fn get_arch(&self) -> (r: Arch)
        ensures
            r == self.arch,
    {
        self.arch
    }

    /// The version of the build.
    pub fn get_version(&self) -> (r: BinaryVersion)
        ensures
            r == self.version,
    {
        self.version
    }

    /// The binary's name.
    pub fn get_name(&self) -> (r: String)
        ensures
            r == self.name,
    {
        self.name.clone()
    }

    /// The content hash: the record's identity.
    pub fn get_sha256(&self) -> (r: String)
        ensures
            r == self.sha256,
    {
        self.sha256.clone()
    }

    /// The PE timestamp, if known.
    pub fn get_timestamp(&self) -> (r: Option<i64>)
        ensures
            r == self.timestamp,
    {
        self.timestamp
    }

    /// The symbol-server URL of this build; `None` unless both the timestamp
    /// and the image size are known.
    pub fn get_download_url(&self) -> (r: Option<SymbolServerDownloadUrl>)
        ensures
            r is Some <==> downloadable(*self),
            r is Some ==> r->0.url@ == download_url_spec(
                self.name@,
                self.timestamp->0,
                self.virtual_size->0,
            ),
    {
        match (self.timestamp, self.virtual_size) {
            (Some(ts), Some(size)) => {
                let mut url = String::from_str("https://msdl.microsoft.com/download/symbols/");
                url.append(self.name.as_str());
                push_char(&mut url, '/');
                push_hex_upper_pad8(&mut url, ts as u64);
                push_hex(&mut url, size as u64, false);
                push_char(&mut url, '/');
                url.append(self.name.as_str());
                assert(url@ =~= download_url_spec(self.name@, ts, size));
                Some(SymbolServerDownloadUrl { url })
            },
            _ => None,
        }
    }
}

} // verus!
