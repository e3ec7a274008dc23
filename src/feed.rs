//! The records of one binary in one branch, as loaded from its feed, and the
//! version timeline over them.

use std::io::Read;
use vstd::prelude::*;
use vstd::string::*;
use vstd::seq_lib::*;
use crate::text::{join, join_path};
use crate::version::{version_lt, version_le};
use crate::winbindex::{Arch, FeedBody, WinbindexEntry, body_kept, record_of, downloadable};

verus! {

/// What decompressing a gzip stream and reading it as UTF-8 text gives:
/// `None` where the stream or the text is not valid.
pub uninterp spec fn gunzip_text(data: Seq<u8>) -> Option<Seq<char>>;

/// Relies on flate2::read::GzDecoder and Read::read_to_string: the text that
/// a gzip stream decompresses to, or failure; it depends on the bytes alone.
#[verifier::external_body]
fn gunzip_to_string(data: &[u8]) -> (r: Option<String>)
    ensures
        match r {
            Some(s) => gunzip_text(data@) == Some(s@),
            None => gunzip_text(data@) is None,
        },
{
    let mut out = String::new();
    match flate2::read::GzDecoder::new(data).read_to_string(&mut out) {
        Ok(_) => Some(out),
        Err(_) => None,
    }
}

/// Why a feed could not be loaded.
#[derive(Debug)]
pub enum WinbindexError {
    FileOpen(String),
    Gzip,
    InvalidWinbindexEntryFormatting(String),
    InvalidOsString,
}

/// Where the feeds of one branch live: `<repo_path>/<data_path>/<name>.json.gz`.
#[derive(Debug)]
pub struct Winbindex {
    pub repo_path: String,
    pub data_path: String,
}

impl Winbindex {
    /// The feeds under `<repo_path>/<data_path>`.
    pub fn new(repo_path: &str, data_path: &str) -> (r: Self)
        ensures
            r.repo_path@ == repo_path@,
            r.data_path@ == data_path@,
    {
        Winbindex { repo_path: String::from_str(repo_path), data_path: String::from_str(data_path) }
    }

    /// The path of the feed of binary `file_name`.
    pub fn feed_path(&self, file_name: &str) -> (r: String)
        ensures
            r@ == join_path(join_path(self.repo_path@, self.data_path@), file_name@)
                + ".json.gz"@,
    {
        let dir = join(self.repo_path.as_str(), self.data_path.as_str());
        let mut r = join(dir.as_str(), file_name);
        r.append(".json.gz");
        r
    }

    /// The feed text held in gzip-compressed `bytes`.
    pub fn decode_feed(bytes: &Vec<u8>) -> (r: Result<String, WinbindexError>)
        ensures
            r is Ok <==> gunzip_text(bytes@) is Some,
            r is Ok ==> gunzip_text(bytes@) == Some(r->Ok_0@),
            r is Err ==> r->Err_0 is Gzip,
    {
        match gunzip_to_string(bytes.as_slice()) {
            Some(s) => Ok(s),
            None => Err(WinbindexError::Gzip),
        }
    }
}

/// The keys of a feed are distinct.
pub open spec fn keys_distinct(bodies: Seq<(String, FeedBody)>) -> bool {
    forall|i: int, j: int|
        0 <= i < bodies.len() && 0 <= j < bodies.len() && i != j ==> #[trigger] bodies[i].0@
            != #[trigger] bodies[j].0@
}

/// The records that the feed `bodies` makes for binary `name` of branch
/// `repo`: one for each body with a size and a timestamp, in feed order.
pub open spec fn records_of_feed(bodies: Seq<(String, FeedBody)>, name: String, repo: String) -> Seq<
    WinbindexEntry,
>
    decreases bodies.len(),
{
    if bodies.len() == 0 {
        Seq::empty()
    } else {
        let prev = records_of_feed(bodies.drop_last(), name, repo);
        let (key, body) = bodies.last();
        if body_kept(body) {
            prev.push(record_of(key, body, name, repo))
        } else {
            prev
        }
    }
}

/// The records of one binary in one branch, each with its own content hash.
pub struct WinbindexFileData {
    pub data: Vec<WinbindexEntry>,
}

/// No two records share a content hash.
pub open spec fn hashes_distinct(data: Seq<WinbindexEntry>) -> bool {
    forall|i: int, j: int|
        0 <= i < data.len() && 0 <= j < data.len() && i != j ==> #[trigger] data[i].sha256@
            != #[trigger] data[j].sha256@
}

/// Index `i` holds the predecessor of `entry`: among the records of its
/// architecture with a version before `entry`'s, the first with the greatest
/// version.
pub open spec fn is_predecessor_index(data: Seq<WinbindexEntry>, entry: WinbindexEntry, i: int) -> bool {
    &&& 0 <= i < data.len()
    &&& data[i].arch == entry.arch
    &&& version_lt(data[i].version, entry.version)
    &&& forall|j: int|
        #![trigger data[j]]
        0 <= j < data.len() && data[j].arch == entry.arch && version_lt(data[j].version, entry.version)
            ==> version_le(data[j].version, data[i].version) && (j < i ==> version_lt(
            data[j].version,
            data[i].version,
        ))
}

/// Some record of `entry`'s architecture has `entry`'s version.
pub open spec fn version_listed(data: Seq<WinbindexEntry>, entry: WinbindexEntry) -> bool {
    exists|i: int| 0 <= i < data.len() && data[i].arch == entry.arch && #[trigger] data[i].version == entry.version
}

/// Some record of `entry`'s architecture has a version before `entry`'s.
pub open spec fn has_older(data: Seq<WinbindexEntry>, entry: WinbindexEntry) -> bool {
    exists|i: int|
        0 <= i < data.len() && data[i].arch == entry.arch && version_lt(#[trigger] data[i].version, entry.version)
}

/// The records that enter the timeline of architecture `arch`.
pub open spec fn in_timeline(arch: Arch) -> spec_fn(WinbindexEntry) -> bool {
    |e: WinbindexEntry| e.arch == arch && downloadable(e)
}

/// Versions never decrease along `s`.
pub open spec fn sorted_by_version(s: Seq<WinbindexEntry>) -> bool {
    forall|i: int, j: int| 0 <= i < j < s.len() ==> version_le(#[trigger] s[i].version, #[trigger] s[j].version)
}

proof fn lemma_insert_multiset<A>(s: Seq<A>, k: int, x: A)
    requires
        0 <= k <= s.len(),
    ensures
        s.insert(k, x).to_multiset() == s.to_multiset().insert(x),
{
    let a = s.subrange(0, k);
    let b = s.subrange(k, s.len() as int);
    assert(s =~= a + b);
    lemma_multiset_commutative(a, b);
    lemma_multiset_commutative(a.push(x), b);
    a.to_multiset_ensures();
    assert(s.insert(k, x) =~= a.push(x) + b);
    assert(s.insert(k, x).to_multiset() =~= s.to_multiset().insert(x));
}

impl WinbindexFileData {
    /// The set holding `data`.
    pub fn new(data: Vec<WinbindexEntry>) -> (r: Self)
        ensures
            r.data == data,
    {
        WinbindexFileData { data }
    }

    /// No two records share a content hash.
    pub open spec fn wf(&self) -> bool {
        hashes_distinct(self.data@)
    }

    /// The records that the feed `bodies` makes for binary `file_name` of
    /// branch `repo`: one per body that has a size and a timestamp, keyed by
    /// its feed key; bodies without them are dropped.
    pub fn from_bodies(bodies: &Vec<(String, FeedBody)>, file_name: &String, repo: &String) -> (r: Self)
        requires
            keys_distinct(bodies@),
        ensures
            r.wf(),
            r.data@ == records_of_feed(bodies@, *file_name, *repo),
    {
        let mut out: Vec<WinbindexEntry> = Vec::new();
        let ghost mut idx: Seq<int> = Seq::empty();
        let mut i: usize = 0;
        while i < bodies.len()
            invariant
                i <= bodies@.len(),
                keys_distinct(bodies@),
                out@ == records_of_feed(bodies@.take(i as int), *file_name, *repo),
                idx.len() == out@.len(),
                forall|k: int| 0 <= k < idx.len() ==> 0 <= #[trigger] idx[k] < i,
                forall|k1: int, k2: int| 0 <= k1 < k2 < idx.len() ==> #[trigger] idx[k1] < #[trigger] idx[k2],
                forall|k: int| 0 <= k < idx.len() ==> #[trigger] out@[k].sha256 == bodies@[idx[k]].0,
            decreases bodies@.len() - i,
        {
            let (key, body) = &bodies[i];
            assert(bodies@.take(i + 1).drop_last() =~= bodies@.take(i as int));
            match WinbindexEntry::from_body(key, body, file_name, repo) {
                Some(e) => {
                    out.push(e);
                    proof {
                        idx = idx.push(i as int);
                    }
                },
                None => {},
            }
            i = i + 1;
        }
        assert(bodies@.take(bodies@.len() as int) =~= bodies@);
        assert forall|a: int, b: int|
            0 <= a < out@.len() && 0 <= b < out@.len() && a != b implies #[trigger] out@[a].sha256@
                != #[trigger] out@[b].sha256@ by {
            assert(out@[a].sha256 == bodies@[idx[a]].0);
            assert(out@[b].sha256 == bodies@[idx[b]].0);
            if a < b {
                assert(idx[a] < idx[b]);
            } else {
                assert(idx[b] < idx[a]);
            }
        }
        WinbindexFileData { data: out }
    }
}

impl WinbindexFileData {
    /// The record that comes right before `entry` in the version order of its
    /// architecture: `None` where no record of that architecture has
    /// `entry`'s version, or none has an earlier one. Of several records with
    /// the same greatest earlier version, the first in the set is taken.
    pub fn find_previous_for_entry(&self, entry: &WinbindexEntry) -> (r: Option<WinbindexEntry>)
        ensures
            r is Some <==> version_listed(self.data@, *entry) && has_older(self.data@, *entry),
            r is Some ==> exists|i: int|
                is_predecessor_index(self.data@, *entry, i) && r->0 == #[trigger] self.data@[i],
    {
        let n = self.data.len();
        let mut listed = false;
        let mut best: Option<usize> = None;
        let mut i: usize = 0;
        while i < n
            invariant
                n == self.data@.len(),
                i <= n,
                listed == exists|j: int|
                    0 <= j < i && self.data@[j].arch == entry.arch && #[trigger] self.data@[j].version
                        == entry.version,
                best is None <==> !exists|j: int|
                    0 <= j < i && self.data@[j].arch == entry.arch && version_lt(
                        #[trigger] self.data@[j].version,
                        entry.version,
                    ),
                best is Some ==> is_predecessor_index(self.data@.take(i as int), *entry, best->0 as int),
            decreases n - i,
        {
            let e = &self.data[i];
            let ghost t = self.data@.take(i as int);
            let ghost t2 = self.data@.take(i + 1);
            assert(forall|j: int| 0 <= j < i ==> t2[j] == #[trigger] t[j]);
            if e.arch == entry.arch {
                if e.version == entry.version {
                    listed = true;
                }
                if e.version.is_before(&entry.version) {
                    match best {
                        None => {
                            best = Some(i);
                        },
                        Some(b) => {
                            if self.data[b].version.is_before(&e.version) {
                                best = Some(i);
                            }
                        },
                    }
                }
            }
            i = i + 1;
        }
        assert(self.data@.take(n as int) =~= self.data@);
        if !listed {
            return None;
        }
        match best {
            None => None,
            Some(b) => Some(self.data[b].clone()),
        }
    }

    /// The timeline of architecture `arch`: its records that can be
    /// downloaded, in version order.
    pub fn timeline(&self, arch: Arch) -> (r: Vec<WinbindexEntry>)
        ensures
            r@.to_multiset() == self.data@.filter(in_timeline(arch)).to_multiset(),
            sorted_by_version(r@),
            forall|k: int| 0 <= k < r@.len() ==> #[trigger] r@[k].arch == arch && downloadable(r@[k]),
    {
        let mut out: Vec<WinbindexEntry> = Vec::new();
        let n = self.data.len();
        let mut i: usize = 0;
        proof {
            reveal(Seq::filter);
            assert(self.data@.take(0).filter(in_timeline(arch)) =~= Seq::<WinbindexEntry>::empty());
            assert(out@ =~= Seq::<WinbindexEntry>::empty());
        }
        while i < n
            invariant
                n == self.data@.len(),
                i <= n,
                out@.to_multiset() == self.data@.take(i as int).filter(in_timeline(arch)).to_multiset(),
                sorted_by_version(out@),
                forall|k: int| 0 <= k < out@.len() ==> #[trigger] out@[k].arch == arch && downloadable(out@[k]),
            decreases n - i,
        {
            let e = &self.data[i];
            proof {
                assert(self.data@.take(i + 1) =~= self.data@.take(i as int).push(self.data@[i as int]));
                self.data@.take(i as int).lemma_filter_push(self.data@[i as int], in_timeline(arch));
            }
            if e.arch == arch && e.timestamp.is_some() && e.virtual_size.is_some() {
                let mut k: usize = 0;
                while k < out.len() && !e.version.is_before(&out[k].version)
                    invariant
                        k <= out@.len(),
                        forall|m: int| 0 <= m < k ==> version_le(#[trigger] out@[m].version, e.version),
                    decreases out@.len() - k,
                {
                    k = k + 1;
                }
                let ghost before = out@;
                proof {
                    lemma_insert_multiset(before, k as int, *e);
                    before.insert_ensures(k as int, *e);
                }
                out.insert(k, e.clone());
                proof {
                    self.data@.take(i as int).filter(in_timeline(arch)).to_multiset_ensures();
                    assert forall|a: int, b: int| 0 <= a < b < out@.len() implies version_le(
                        #[trigger] out@[a].version,
                        #[trigger] out@[b].version,
                    ) by {
                        if b < k {
                        } else if b == k {
                        } else if a < k {
                            assert(version_le(before[a].version, e.version));
                            assert(version_lt(e.version, before[k as int].version));
                            assert(version_le(before[k as int].version, before[b - 1].version) || b - 1 == k);
                        } else if a == k {
                            assert(version_le(before[k as int].version, before[b - 1].version) || b - 1 == k);
                        } else {
                            assert(version_le(before[a - 1].version, before[b - 1].version));
                        }
                    }
                }
            }
            i = i + 1;
        }
        assert(self.data@.take(n as int) =~= self.data@);
        out
    }
}

/// For three records of one architecture with versions a < b < c, and no
/// other record of that architecture: the predecessor of c is b, that of b
/// is a, and a has none.
pub proof fn lemma_predecessor_chain(data: Seq<WinbindexEntry>, ia: int, ib: int, ic: int)
    requires
        0 <= ia < data.len(),
        0 <= ib < data.len(),
        0 <= ic < data.len(),
        data[ib].arch == data[ia].arch,
        data[ic].arch == data[ia].arch,
        version_lt(data[ia].version, data[ib].version),
        version_lt(data[ib].version, data[ic].version),
        forall|j: int|
            0 <= j < data.len() && (#[trigger] data[j]).arch == data[ia].arch ==> j == ia || j == ib
                || j == ic,
    ensures
        version_listed(data, data[ic]) && has_older(data, data[ic]),
        is_predecessor_index(data, data[ic], ib),
        version_listed(data, data[ib]) && has_older(data, data[ib]),
        is_predecessor_index(data, data[ib], ia),
        !has_older(data, data[ia]),
{
    assert(data[ic].version == data[ic].version);
    assert(data[ib].version == data[ib].version);
    assert(has_older(data, data[ic])) by {
        assert(version_lt(data[ib].version, data[ic].version));
    }
    assert(has_older(data, data[ib])) by {
        assert(version_lt(data[ia].version, data[ib].version));
    }
    assert(version_listed(data, data[ic])) by {
        assert(data[ic].version == data[ic].version);
    }
    assert(version_listed(data, data[ib])) by {
        assert(data[ib].version == data[ib].version);
    }
}

} // verus!
