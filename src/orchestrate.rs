//! Per-binary decisions of a run: diff the whole history of a binary seen
//! for the first time, or diff the next undiffed build against its
//! predecessor; and what the ledger records afterwards.

use vstd::prelude::*;
use crate::feed::{WinbindexFileData, in_timeline, sorted_by_version, version_listed, has_older, is_predecessor_index};
use crate::progress::{BinaryProgressStore, add_spec, add_all, indexed};
use crate::winbindex::{Arch, WinbindexEntry, downloadable};

verus! {

/// The records of one architecture to diff pairwise, in version order.
#[derive(Debug)]
pub struct DiffBatch {
    pub arch: Arch,
    pub entries: Vec<WinbindexEntry>,
}

/// What a run does for one binary of one branch.
#[derive(Debug)]
pub enum DiffPlan {
    /// The binary is new to the ledger: diff the full timeline of each
    /// architecture.
    New { batches: Vec<DiffBatch> },
    /// Diff the next undiffed record against its predecessor.
    Incremental { previous: WinbindexEntry, next: WinbindexEntry },
    /// The next undiffed record has no predecessor: it is left for a later run.
    NoPredecessor { next: WinbindexEntry },
    /// Every record has been diffed.
    UpToDate,
}

/// The architectures whose timelines a new binary is diffed along, in order.
pub open spec fn batch_archs() -> Seq<Arch> {
    seq![Arch::Amd64, Arch::Arm64, Arch::X86, Arch::Arm]
}

/// `t` is the timeline of architecture `arch` over `data`: its downloadable
/// records of that architecture, in version order.
pub open spec fn is_timeline(data: Seq<WinbindexEntry>, arch: Arch, t: Seq<WinbindexEntry>) -> bool {
    &&& t.to_multiset() == data.filter(in_timeline(arch)).to_multiset()
    &&& sorted_by_version(t)
    &&& forall|k: int| 0 <= k < t.len() ==> #[trigger] t[k].arch == arch && downloadable(t[k])
}

/// Index `j` holds the first record whose hash the ledger does not hold for
/// binary `name`.
pub open spec fn first_unindexed(
    m: Map<Seq<char>, Seq<Seq<char>>>,
    name: Seq<char>,
    data: Seq<WinbindexEntry>,
    j: int,
) -> bool {
    &&& 0 <= j < data.len()
    &&& !indexed(m, name, data[j].sha256@)
    &&& forall|k: int| 0 <= k < j ==> indexed(m, name, #[trigger] data[k].sha256@)
}

/// The content hashes of `es`, in order.
pub open spec fn entry_hashes(es: Seq<WinbindexEntry>) -> Seq<Seq<char>> {
    es.map_values(|e: WinbindexEntry| e.sha256@)
}

/// The ledger after the hashes of every batch are added for binary `name`.
pub open spec fn add_batches(m: Map<Seq<char>, Seq<Seq<char>>>, name: Seq<char>, bs: Seq<DiffBatch>) -> Map<
    Seq<char>,
    Seq<Seq<char>>,
>
    decreases bs.len(),
{
    if bs.len() == 0 {
        m
    } else {
        add_all(add_batches(m, name, bs.drop_last()), name, entry_hashes(bs.last().entries@))
    }
}

fn clone_entries(es: &Vec<WinbindexEntry>) -> (r: Vec<WinbindexEntry>)
    ensures
        r@ == es@,
{
    let mut r: Vec<WinbindexEntry> = Vec::new();
    let mut i: usize = 0;
    while i < es.len()
        invariant
            i <= es@.len(),
            r@ == es@.take(i as int),
        decreases es@.len() - i,
    {
        r.push(es[i].clone());
        assert(es@.take(i + 1) =~= es@.take(i as int).push(es@[i as int]));
        i = i + 1;
    }
    assert(es@.take(es@.len() as int) =~= es@);
    r
}

/// Decides what to do for binary `binary_name`, given its ledger and its
/// records. A binary with nothing in the ledger gets the full timeline of
/// each architecture. Otherwise the first record not yet in the ledger is
/// diffed against its predecessor, or left alone where it has none.
pub fn plan_binary(progress: &BinaryProgressStore, feed: &WinbindexFileData, binary_name: &str) -> (r: DiffPlan)
    ensures
        !progress@.contains_key(binary_name@) ==> match r {
            DiffPlan::New { batches } => {
                &&& batches@.len() == batch_archs().len()
                &&& forall|k: int|
                    0 <= k < batches@.len() ==> (#[trigger] batches@[k]).arch == batch_archs()[k]
                        && is_timeline(feed.data@, batches@[k].arch, batches@[k].entries@)
            },
            _ => false,
        },
        progress@.contains_key(binary_name@) ==> {
            &&& r is UpToDate <==> forall|j: int|
                0 <= j < feed.data@.len() ==> indexed(progress@, binary_name@, #[trigger] feed.data@[j].sha256@)
            &&& !(r is New)
            &&& r is Incremental ==> exists|j: int, i: int|
                first_unindexed(progress@, binary_name@, feed.data@, j) && r->Incremental_next == #[trigger] feed.data@[j]
                    && is_predecessor_index(feed.data@, feed.data@[j], i) && r->Incremental_previous
                    == #[trigger] feed.data@[i]
            &&& r is NoPredecessor ==> exists|j: int|
                first_unindexed(progress@, binary_name@, feed.data@, j) && r->NoPredecessor_next
                    == #[trigger] feed.data@[j] && !has_older(feed.data@, feed.data@[j])
            &&& forall|j: int|
                first_unindexed(progress@, binary_name@, feed.data@, j) ==> (#[trigger] has_older(
                    feed.data@,
                    feed.data@[j],
                ) ==> r is Incremental)
        },
{
    if progress.none_indexed(binary_name) {
        let mut batches: Vec<DiffBatch> = Vec::new();
        let archs: [Arch; 4] = [Arch::Amd64, Arch::Arm64, Arch::X86, Arch::Arm];
        let mut k: usize = 0;
        while k < 4
            invariant
                k <= 4,
                archs@ == batch_archs(),
                batches@.len() == k,
                forall|m: int|
                    0 <= m < k ==> (#[trigger] batches@[m]).arch == batch_archs()[m]
                        && is_timeline(feed.data@, batches@[m].arch, batches@[m].entries@),
            decreases 4 - k,
        {
            let arch = archs[k];
            let entries = feed.timeline(arch);
            batches.push(DiffBatch { arch, entries });
            k = k + 1;
        }
        assert(batch_archs().len() == 4);
        return DiffPlan::New { batches };
    }
    let n = feed.data.len();
    let mut j: usize = 0;
    while j < n
        invariant
            n == feed.data@.len(),
            j <= n,
            progress@.contains_key(binary_name@),
            forall|k: int| 0 <= k < j ==> indexed(progress@, binary_name@, #[trigger] feed.data@[k].sha256@),
        decreases n - j,
    {
        let e = &feed.data[j];
        if !progress.is_in_index(binary_name, e.sha256.as_str()) {
            assert(first_unindexed(progress@, binary_name@, feed.data@, j as int));
            assert forall|jj: int| first_unindexed(progress@, binary_name@, feed.data@, jj) implies jj == j by {
                if jj < j {
                } else if jj > j {
                    assert(indexed(progress@, binary_name@, feed.data@[j as int].sha256@));
                }
            }
            assert(version_listed(feed.data@, *e)) by {
                assert(feed.data@[j as int].version == e.version);
            }
            return match feed.find_previous_for_entry(e) {
                Some(previous) => DiffPlan::Incremental { previous, next: e.clone() },
                None => DiffPlan::NoPredecessor { next: e.clone() },
            };
        }
        j = j + 1;
    }
    DiffPlan::UpToDate
}

impl DiffPlan {
    /// The batches to download and diff: the timelines of a new binary, or
    /// the pair (predecessor, next) of a tracked one, under the next record's
    /// architecture; nothing otherwise.
    pub fn diff_batches(&self) -> (r: Vec<DiffBatch>)
        ensures
            self is New ==> r@.len() == self->batches@.len() && forall|k: int|
                0 <= k < r@.len() ==> (#[trigger] r@[k]).arch == self->batches@[k].arch
                    && r@[k].entries@ == self->batches@[k].entries@,
            self is Incremental ==> r@.len() == 1 && r@[0].arch == self->Incremental_next.arch && r@[0].entries@
                == seq![self->Incremental_previous, self->Incremental_next],
            (self is NoPredecessor || self is UpToDate) ==> r@.len() == 0,
    {
        let mut r: Vec<DiffBatch> = Vec::new();
        match self {
            DiffPlan::New { batches } => {
                let mut k: usize = 0;
                while k < batches.len()
                    invariant
                        k <= batches@.len(),
                        r@.len() == k,
                        forall|m: int|
                            0 <= m < k ==> (#[trigger] r@[m]).arch == batches@[m].arch
                                && r@[m].entries@ == batches@[m].entries@,
                    decreases batches@.len() - k,
                {
                    r.push(DiffBatch { arch: batches[k].arch, entries: clone_entries(&batches[k].entries) });
                    k = k + 1;
                }
            },
            DiffPlan::Incremental { previous, next } => {
                let mut entries: Vec<WinbindexEntry> = Vec::new();
                entries.push(previous.clone());
                entries.push(next.clone());
                assert(entries@ =~= seq![*previous, *next]);
                r.push(DiffBatch { arch: next.arch, entries });
            },
            _ => {},
        }
        r
    }
}

/// Records in the ledger what a run of `plan` has diffed: every hash of
/// every batch of a new binary, whatever became of its own pairs; the next
/// record of a tracked one; nothing where no diff was run.
pub fn record_progress(progress: &mut BinaryProgressStore, binary_name: &str, plan: &DiffPlan)
    ensures
        plan is New ==> final(progress)@ == add_batches(old(progress)@, binary_name@, plan->batches@),
        plan is Incremental ==> final(progress)@ == add_spec(old(progress)@, binary_name@, plan->Incremental_next.sha256@),
        (plan is NoPredecessor || plan is UpToDate) ==> final(progress)@ == old(progress)@,
{
    match plan {
        DiffPlan::New { batches } => {
            let ghost base = progress@;
            let mut k: usize = 0;
            while k < batches.len()
                invariant
                    k <= batches@.len(),
                    progress@ == add_batches(base, binary_name@, batches@.take(k as int)),
                decreases batches@.len() - k,
            {
                let es = &batches[k].entries;
                let ghost before = progress@;
                let mut i: usize = 0;
                while i < es.len()
                    invariant
                        i <= es@.len(),
                        progress@ == add_all(before, binary_name@, entry_hashes(es@).take(i as int)),
                    decreases es@.len() - i,
                {
                    assert(entry_hashes(es@).take(i + 1).drop_last() =~= entry_hashes(es@).take(i as int));
                    progress.add(binary_name, es[i].sha256.as_str());
                    i = i + 1;
                }
                assert(entry_hashes(es@).take(es@.len() as int) =~= entry_hashes(es@));
                assert(batches@.take(k + 1).drop_last() =~= batches@.take(k as int));
                k = k + 1;
            }
            assert(batches@.take(batches@.len() as int) =~= batches@);
        },
        DiffPlan::Incremental { previous: _, next } => {
            progress.add(binary_name, next.sha256.as_str());
        },
        _ => {},
    }
}

} // verus!
