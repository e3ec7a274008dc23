//! The progress ledger: which content hashes of which binaries have already
//! been diffed, per branch. Reruns consult it so that no work is repeated.

use vstd::prelude::*;
use vstd::string::*;

verus! {

/// The hashes recorded for one binary, as text.
pub open spec fn hashes_view(v: Vec<String>) -> Seq<Seq<char>> {
    v@.map_values(|h: String| h@)
}

/// No two entries share a binary name.
pub open spec fn names_distinct(s: Seq<(String, Vec<String>)>) -> bool {
    forall|i: int, j: int|
        0 <= i < s.len() && 0 <= j < s.len() && i != j ==> #[trigger] s[i].0@ != #[trigger] s[j].0@
}

/// The ledger as a map from binary name to the hashes recorded for it, in the
/// order they were added.
pub open spec fn ledger_map(s: Seq<(String, Vec<String>)>) -> Map<Seq<char>, Seq<Seq<char>>> {
    Map::new(
        |n: Seq<char>| exists|i: int| 0 <= i < s.len() && #[trigger] s[i].0@ == n,
        |n: Seq<char>| hashes_view(s[choose|i: int| 0 <= i < s.len() && #[trigger] s[i].0@ == n].1),
    )
}

/// The ledger after `hash` is added for binary `name`: appended to its
/// hashes, or the first one recorded for it.
pub open spec fn add_spec(m: Map<Seq<char>, Seq<Seq<char>>>, name: Seq<char>, hash: Seq<char>) -> Map<
    Seq<char>,
    Seq<Seq<char>>,
> {
    if m.contains_key(name) {
        m.insert(name, m[name].push(hash))
    } else {
        m.insert(name, seq![hash])
    }
}

/// `hash` is recorded for binary `name`.
pub open spec fn indexed(m: Map<Seq<char>, Seq<Seq<char>>>, name: Seq<char>, hash: Seq<char>) -> bool {
    m.contains_key(name) && m[name].contains(hash)
}

proof fn lemma_ledger_at(s: Seq<(String, Vec<String>)>, i: int)
    requires
        names_distinct(s),
        0 <= i < s.len(),
    ensures
        ledger_map(s).contains_key(s[i].0@),
        ledger_map(s)[s[i].0@] == hashes_view(s[i].1),
{
    let n = s[i].0@;
    assert(exists|j: int| 0 <= j < s.len() && #[trigger] s[j].0@ == n);
    let j = choose|j: int| 0 <= j < s.len() && #[trigger] s[j].0@ == n;
    assert(j == i);
}

/// The hashes already diffed for each binary of one branch.
#[derive(Debug)]
pub struct BinaryProgressStore {
    binarys_indexed: Vec<(String, Vec<String>)>,
}

impl View for BinaryProgressStore {
    type V = Map<Seq<char>, Seq<Seq<char>>>;

    closed spec fn view(&self) -> Map<Seq<char>, Seq<Seq<char>>> {
        ledger_map(self.binarys_indexed@)
    }
}

impl BinaryProgressStore {
    #[verifier::type_invariant]
    spec fn inv(&self) -> bool {
        names_distinct(self.binarys_indexed@)
    }

    /// An empty ledger.
    pub fn new() -> (r: Self)
        ensures
            r@ == Map::<Seq<char>, Seq<Seq<char>>>::empty(),
    {
        let r = BinaryProgressStore { binarys_indexed: Vec::new() };
        assert(r@ =~= Map::<Seq<char>, Seq<Seq<char>>>::empty());
        r
    }

    fn find(&self, name: &String) -> (r: Option<usize>)
        ensures
            match r {
                Some(i) => i < self.binarys_indexed@.len() && self.binarys_indexed@[i as int].0@ == name@,
                None => !self@.contains_key(name@),
            },
    {
        let mut i: usize = 0;
        while i < self.binarys_indexed.len()
            invariant
                i <= self.binarys_indexed@.len(),
                forall|j: int| 0 <= j < i ==> #[trigger] self.binarys_indexed@[j].0@ != name@,
            decreases self.binarys_indexed@.len() - i,
        {
            if self.binarys_indexed[i].0 == *name {
                return Some(i);
            }
            i = i + 1;
        }
        None
    }

    /// Records that `hash` of binary `filename` has been diffed. Adding a hash
    /// that is already there appends it again, which changes no answer of
    /// the ledger.
    pub fn add(&mut self, filename: &str, hash: &str)
        ensures
            final(self)@ == add_spec(old(self)@, filename@, hash@),
    {
        proof {
            use_type_invariant(&*self);
        }
        let name = String::from_str(filename);
        let h = String::from_str(hash);
        let ghost s = self.binarys_indexed@;
        let found = self.find(&name);
        let mut entries: Vec<(String, Vec<String>)> = Vec::new();
        core::mem::swap(&mut self.binarys_indexed, &mut entries);
        assert(entries@ == s);
        match found {
            Some(i) => {
                proof {
                    lemma_ledger_at(s, i as int);
                }
                let ghost old_hashes = s[i as int].1;
                entries[i].1.push(h);
                let ghost s2 = entries@;
                proof {
                    assert(s2[i as int].0 == s[i as int].0);
                    assert(forall|j: int| 0 <= j < s.len() && j != i ==> #[trigger] s2[j] == s[j]);
                    assert(names_distinct(s2));
                    assert(hashes_view(s2[i as int].1) =~= hashes_view(old_hashes).push(h@));
                    lemma_ledger_at(s2, i as int);
                    assert forall|n: Seq<char>| #[trigger]
                        ledger_map(s2).contains_key(n) == add_spec(ledger_map(s), name@, h@).contains_key(n) by {
                        if exists|j: int| 0 <= j < s.len() && #[trigger] s[j].0@ == n {
                            let j = choose|j: int| 0 <= j < s.len() && #[trigger] s[j].0@ == n;
                            assert(s2[j].0@ == n);
                        }
                        if exists|j: int| 0 <= j < s2.len() && #[trigger] s2[j].0@ == n {
                            let j = choose|j: int| 0 <= j < s2.len() && #[trigger] s2[j].0@ == n;
                            assert(s[j].0@ == n);
                        }
                    }
                    assert forall|n: Seq<char>| #[trigger] ledger_map(s2).contains_key(n) && n != name@
                        implies ledger_map(s2)[n] == ledger_map(s)[n] by {
                        let j = choose|j: int| 0 <= j < s2.len() && #[trigger] s2[j].0@ == n;
                        lemma_ledger_at(s2, j);
                        lemma_ledger_at(s, j);
                    }
                    assert(ledger_map(s2) =~= add_spec(ledger_map(s), name@, h@));
                }
            },
            None => {
                let mut v: Vec<String> = Vec::new();
                v.push(h);
                entries.push((name, v));
                let ghost s2 = entries@;
                proof {
                    let last = s.len() as int;
                    assert(forall|j: int| 0 <= j < s.len() ==> #[trigger] s2[j] == s[j]);
                    assert forall|a: int, b: int|
                        0 <= a < s2.len() && 0 <= b < s2.len() && a != b implies #[trigger] s2[a].0@
                            != #[trigger] s2[b].0@ by {
                        if a == last {
                            assert(!ledger_map(s).contains_key(name@));
                            assert(s[b].0@ != name@);
                        } else if b == last {
                            assert(!ledger_map(s).contains_key(name@));
                            assert(s[a].0@ != name@);
                        }
                    }
                    lemma_ledger_at(s2, last);
                    assert(hashes_view(v) =~= seq![h@]);
                    assert forall|n: Seq<char>| #[trigger]
                        ledger_map(s2).contains_key(n) == add_spec(ledger_map(s), name@, h@).contains_key(n) by {
                        if exists|j: int| 0 <= j < s.len() && #[trigger] s[j].0@ == n {
                            let j = choose|j: int| 0 <= j < s.len() && #[trigger] s[j].0@ == n;
                            assert(s2[j].0@ == n);
                        }
                        if exists|j: int| 0 <= j < s2.len() && #[trigger] s2[j].0@ == n {
                            let j = choose|j: int| 0 <= j < s2.len() && #[trigger] s2[j].0@ == n;
                            if j < last {
                                assert(s[j].0@ == n);
                            }
                        }
                    }
                    assert forall|n: Seq<char>| #[trigger] ledger_map(s2).contains_key(n) && n != name@
                        implies ledger_map(s2)[n] == ledger_map(s)[n] by {
                        let j = choose|j: int| 0 <= j < s2.len() && #[trigger] s2[j].0@ == n;
                        lemma_ledger_at(s2, j);
                        lemma_ledger_at(s, j);
                    }
                    assert(ledger_map(s2) =~= add_spec(ledger_map(s), name@, h@));
                }
            },
        }
        core::mem::swap(&mut self.binarys_indexed, &mut entries);
    }

    /// Whether `hash` of binary `filename` has been diffed.
    pub fn is_in_index(&self, filename: &str, hash: &str) -> (r: bool)
        ensures
            r == indexed(self@, filename@, hash@),
    {
        proof {
            use_type_invariant(self);
        }
        let name = String::from_str(filename);
        let h = String::from_str(hash);
        match self.find(&name) {
            None => false,
            Some(i) => {
                proof {
                    lemma_ledger_at(self.binarys_indexed@, i as int);
                }
                let list = &self.binarys_indexed[i].1;
                let mut k: usize = 0;
                while k < list.len()
                    invariant
                        k <= list@.len(),
                        i < self.binarys_indexed@.len(),
                        *list == self.binarys_indexed@[i as int].1,
                        self@.contains_key(filename@),
                        self@[filename@] == hashes_view(*list),
                        h@ == hash@,
                        forall|j: int| 0 <= j < k ==> #[trigger] list@[j]@ != h@,
                    decreases list@.len() - k,
                {
                    if list[k] == h {
                        assert(hashes_view(*list)[k as int] == h@);
                        assert(hashes_view(*list).contains(h@));
                        assert(*list == self.binarys_indexed@[i as int].1);
                        return true;
                    }
                    k = k + 1;
                }
                assert(!hashes_view(*list).contains(h@)) by {
                    if hashes_view(*list).contains(h@) {
                        let j = choose|j: int| 0 <= j < hashes_view(*list).len() && hashes_view(*list)[j] == h@;
                        assert(list@[j]@ == h@);
                    }
                }
                assert(*list == self.binarys_indexed@[i as int].1);
                false
            },
        }
    }

    /// Whether nothing has been recorded for binary `filename` yet.
    pub fn none_indexed(&self, filename: &str) -> (r: bool)
        ensures
            r == !self@.contains_key(filename@),
    {
        let name = String::from_str(filename);
        self.find(&name).is_none()
    }
}

/// The ledger after each of `hashes` is added, in order, for binary `name`.
pub open spec fn add_all(m: Map<Seq<char>, Seq<Seq<char>>>, name: Seq<char>, hashes: Seq<Seq<char>>) -> Map<
    Seq<char>,
    Seq<Seq<char>>,
>
    decreases hashes.len(),
{
    if hashes.len() == 0 {
        m
    } else {
        add_spec(add_all(m, name, hashes.drop_last()), name, hashes.last())
    }
}

/// The ledger that a list of (binary, hashes) entries describes: every hash
/// added, entry by entry.
pub open spec fn ledger_of_entries(entries: Seq<(String, Vec<String>)>) -> Map<Seq<char>, Seq<Seq<char>>>
    decreases entries.len(),
{
    if entries.len() == 0 {
        Map::empty()
    } else {
        add_all(ledger_of_entries(entries.drop_last()), entries.last().0@, hashes_view(entries.last().1))
    }
}

impl BinaryProgressStore {
    /// The ledger described by `entries`, as read back from the ledger file.
    pub fn from_entries(entries: &Vec<(String, Vec<String>)>) -> (r: Self)
        ensures
            r@ == ledger_of_entries(entries@),
    {
        let mut r = BinaryProgressStore::new();
        let mut i: usize = 0;
        while i < entries.len()
            invariant
                i <= entries@.len(),
                r@ == ledger_of_entries(entries@.take(i as int)),
            decreases entries@.len() - i,
        {
            let (name, hashes) = &entries[i];
            let ghost base = r@;
            let mut k: usize = 0;
            while k < hashes.len()
                invariant
                    k <= hashes@.len(),
                    r@ == add_all(base, name@, hashes_view(*hashes).take(k as int)),
                decreases hashes@.len() - k,
            {
                assert(hashes_view(*hashes).take(k + 1).drop_last() =~= hashes_view(*hashes).take(k as int));
                r.add(name.as_str(), hashes[k].as_str());
                k = k + 1;
            }
            assert(hashes_view(*hashes).take(hashes@.len() as int) =~= hashes_view(*hashes));
            assert(entries@.take(i + 1).drop_last() =~= entries@.take(i as int));
            i = i + 1;
        }
        assert(entries@.take(entries@.len() as int) =~= entries@);
        r
    }

    /// The ledger as (binary, hashes) entries, one per binary, for writing
    /// to the ledger file.
    pub fn entries(&self) -> (r: &Vec<(String, Vec<String>)>)
        ensures
            names_distinct(r@),
            ledger_map(r@) == self@,
    {
        proof {
            use_type_invariant(self);
        }
        &self.binarys_indexed
    }
}

/// Adding the same hash of the same binary twice answers every question of
/// the ledger as adding it once does, and the hash is then recorded.
pub proof fn lemma_add_idempotent(
    m: Map<Seq<char>, Seq<Seq<char>>>,
    name: Seq<char>,
    hash: Seq<char>,
    other_name: Seq<char>,
    other_hash: Seq<char>,
)
    ensures
        indexed(add_spec(m, name, hash), name, hash),
        indexed(add_spec(add_spec(m, name, hash), name, hash), name, hash),
        indexed(add_spec(add_spec(m, name, hash), name, hash), other_name, other_hash)
            == indexed(add_spec(m, name, hash), other_name, other_hash),
        add_spec(add_spec(m, name, hash), name, hash).contains_key(other_name)
            == add_spec(m, name, hash).contains_key(other_name),
{
    let m1 = add_spec(m, name, hash);
    let m2 = add_spec(m1, name, hash);
    if m.contains_key(name) {
        assert(m1[name][m1[name].len() - 1] == hash);
    } else {
        assert(m1[name][0] == hash);
    }
    assert(m2[name] == m1[name].push(hash));
    assert(m2[name][m2[name].len() - 1] == hash);
    if other_name == name {
        if m2[name].contains(other_hash) {
            let j = choose|j: int| 0 <= j < m2[name].len() && m2[name][j] == other_hash;
            if j < m1[name].len() {
                assert(m1[name][j] == other_hash);
            } else {
                assert(other_hash == hash);
            }
        }
        if m1[name].contains(other_hash) {
            let j = choose|j: int| 0 <= j < m1[name].len() && m1[name][j] == other_hash;
            assert(m2[name][j] == other_hash);
        }
    }
}

/// A binary counts as not indexed until a hash is first added for it: an
/// empty ledger indexes nothing, adding for one binary indexes it, and
/// adding for another binary leaves it as it was.
pub proof fn lemma_none_indexed_until_add(
    m: Map<Seq<char>, Seq<Seq<char>>>,
    name: Seq<char>,
    added_name: Seq<char>,
    hash: Seq<char>,
)
    ensures
        !Map::<Seq<char>, Seq<Seq<char>>>::empty().contains_key(name),
        add_spec(m, name, hash).contains_key(name),
        added_name != name ==> (add_spec(m, added_name, hash).contains_key(name) == m.contains_key(
            name,
        )),
{
}

/// The ledger after each (binary, hash) pair of `adds` is added, in order.
pub open spec fn apply_adds(m: Map<Seq<char>, Seq<Seq<char>>>, adds: Seq<(Seq<char>, Seq<char>)>) -> Map<
    Seq<char>,
    Seq<Seq<char>>,
>
    decreases adds.len(),
{
    if adds.len() == 0 {
        m
    } else {
        add_spec(apply_adds(m, adds.drop_last()), adds.last().0, adds.last().1)
    }
}

/// Over any sequence of adds starting from an empty ledger, a binary counts
/// as not indexed exactly when no add in the sequence was for it. Lookups
/// (`is_in_index`, `none_indexed`) take the ledger by shared reference and
/// leave it unchanged, so they do not enter the sequence.
pub proof fn lemma_none_indexed_over_adds(adds: Seq<(Seq<char>, Seq<char>)>, name: Seq<char>)
    ensures
        !apply_adds(Map::empty(), adds).contains_key(name) <==> forall|i: int|
            0 <= i < adds.len() ==> (#[trigger] adds[i]).0 != name,
    decreases adds.len(),
{
    if adds.len() > 0 {
        let p = adds.drop_last();
        lemma_none_indexed_over_adds(p, name);
        assert forall|i: int| 0 <= i < p.len() implies #[trigger] p[i] == adds[i] by {}
        if adds.last().0 != name {
            assert forall|i: int| 0 <= i < adds.len() && (forall|j: int| 0 <= j < p.len() ==> (#[trigger] p[j]).0 != name)
                implies (#[trigger] adds[i]).0 != name by {
                if i < p.len() {
                    assert(p[i] == adds[i]);
                }
            }
        }
    }
}

/// The ledger file's root: the store directory it belongs to and the ledger
/// of each branch.
#[derive(Debug)]
pub struct Store {
    pub store_path: String,
    pub branches: Vec<(String, BinaryProgressStore)>,
}

/// No two branch ledgers share a branch name.
pub open spec fn branch_names_distinct(branches: Seq<(String, BinaryProgressStore)>) -> bool {
    forall|i: int, j: int|
        0 <= i < branches.len() && 0 <= j < branches.len() && i != j ==> #[trigger] branches[i].0@
            != #[trigger] branches[j].0@
}

impl Store {
    /// Each branch has at most one ledger.
    pub open spec fn wf(&self) -> bool {
        branch_names_distinct(self.branches@)
    }

    /// An empty ledger file for store directory `store_path`.
    pub fn new(store_path: &str) -> (r: Self)
        ensures
            r.store_path@ == store_path@,
            r.branches@.len() == 0,
            r.wf(),
    {
        Store { store_path: String::from_str(store_path), branches: Vec::new() }
    }
}

/// Index `i` holds the first ledger of branch `name`.
pub open spec fn first_branch(branches: Seq<(String, BinaryProgressStore)>, name: Seq<char>, i: int) -> bool {
    &&& 0 <= i < branches.len()
    &&& branches[i].0@ == name
    &&& forall|j: int| 0 <= j < i ==> #[trigger] branches[j].0@ != name
}

/// The ledger file at `path`, loaded into memory.
#[derive(Debug)]
pub struct StorageProvider {
    pub path: String,
    pub store: Store,
}

/// The ledger file of a store directory: `<store>/progress.yaml`.
pub fn ledger_path(store_dir: &str) -> (r: String)
    ensures
        r@ == crate::text::join_path(store_dir@, "progress.yaml"@),
{
    crate::text::join(store_dir, "progress.yaml")
}

impl StorageProvider {
    /// The ledger file at `path`, holding `store`.
    pub fn with_store(path: String, store: Store) -> (r: Self)
        ensures
            r.path == path,
            r.store == store,
    {
        StorageProvider { path, store }
    }

    /// The ledger of branch `name`, added empty if the branch has none yet.
    pub fn get_or_create_branch_store(&mut self, name: &str) -> (r: &mut BinaryProgressStore)
        ensures
            final(self).path == old(self).path,
            final(self).store.store_path == old(self).store.store_path,
            old(self).store.wf() ==> final(self).store.wf(),
            (exists|i: int| first_branch(old(self).store.branches@, name@, i)) ==> exists|i: int|
                first_branch(old(self).store.branches@, name@, i) && *r == old(
                    self,
                ).store.branches@[i].1 && final(self).store.branches@ == old(
                    self,
                ).store.branches@.update(i, (old(self).store.branches@[i].0, *final(r))),
            (forall|i: int| !first_branch(old(self).store.branches@, name@, i)) ==> {
                &&& (*r)@ == Map::<Seq<char>, Seq<Seq<char>>>::empty()
                &&& final(self).store.branches@.len() == old(self).store.branches@.len() + 1
                &&& final(self).store.branches@.take(old(self).store.branches@.len() as int) == old(
                    self,
                ).store.branches@
                &&& final(self).store.branches@.last().0@ == name@
                &&& final(self).store.branches@.last().1 == *final(r)
            },
    {
        let key = String::from_str(name);
        let mut i: usize = 0;
        while i < self.store.branches.len()
            invariant
                i <= self.store.branches@.len(),
                key@ == name@,
                *self == *old(self),
                forall|j: int| 0 <= j < i ==> #[trigger] self.store.branches@[j].0@ != name@,
            decreases self.store.branches@.len() - i,
        {
            if self.store.branches[i].0 == key {
                assert(first_branch(old(self).store.branches@, name@, i as int));
                assert forall|j: int| first_branch(old(self).store.branches@, name@, j) implies j == i by {
                    if j < i {
                    } else if j > i {
                        assert(old(self).store.branches@[i as int].0@ != name@);
                    }
                }
                return &mut self.store.branches[i].1;
            }
            i = i + 1;
        }
        let ghost before = self.store.branches@;
        assert forall|j: int| !first_branch(before, name@, j) by {
            if 0 <= j < before.len() && before[j].0@ == name@ {
                assert(before[j].0@ != name@);
            }
        }
        self.store.branches.push((key, BinaryProgressStore::new()));
        assert forall|a: int, b: int|
            old(self).store.wf() && 0 <= a < self.store.branches@.len() && 0 <= b
                < self.store.branches@.len() && a != b implies #[trigger] self.store.branches@[a].0@
                != #[trigger] self.store.branches@[b].0@ by {
            let n = before.len() as int;
            if a < n && b < n {
                assert(before[a].0@ != before[b].0@);
            } else if a == n {
                assert(before[b].0@ != name@);
            } else {
                assert(before[a].0@ != name@);
            }
        }
        let last = self.store.branches.len() - 1;
        &mut self.store.branches[last].1
    }
}

} // verus!
