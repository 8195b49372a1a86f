use vstd::prelude::*;
use crate::dir_map::DirMap;
use crate::error::Error;

verus! {

/// A comparison in the cache: being computed, or computed with its map.
pub struct LoadedBackup {
    pub old: String,
    pub new: String,
    pub map: DirMap,
    /// The comparison is being computed and `map` is not usable yet.
    pub loading: bool,
}

/// What a caller learns when it asks the cache for a comparison.
#[derive(PartialEq, Eq, Structural, Debug, Clone, Copy)]
pub enum Begin {
    /// The comparison is in the cache; read it with `get`.
    Cached,
    /// The caller is now the one computing the comparison, and reports back
    /// with `finish` or `abandon`.
    Started,
}

/// The snapshot paths that a comparison is cached under.
pub type CacheKey = (Seq<char>, Seq<char>);

pub open spec fn key_of(e: LoadedBackup) -> CacheKey {
    (e.old@, e.new@)
}

/// The cache holds a computed comparison under `k`.
pub open spec fn populated(st: Map<CacheKey, LoadedBackup>, k: CacheKey) -> bool {
    st.contains_key(k) && !st[k].loading
}

/// The comparison under `k` is being computed.
pub open spec fn loading(st: Map<CacheKey, LoadedBackup>, k: CacheKey) -> bool {
    st.contains_key(k) && st[k].loading
}

/// What asking for `k` answers in state `st`.
pub open spec fn begin_outcome(st: Map<CacheKey, LoadedBackup>, k: CacheKey, refresh: bool) -> Option<Begin> {
    if populated(st, k) && !refresh {
        Some(Begin::Cached)
    } else if loading(st, k) {
        None
    } else {
        Some(Begin::Started)
    }
}

/// The state `st2` after asking for `k` in state `st`: unchanged, unless the
/// caller starts computing, in which case `k` is marked as being computed with
/// an empty map.
pub open spec fn begin_state(st: Map<CacheKey, LoadedBackup>, k: CacheKey, refresh: bool, st2: Map<CacheKey, LoadedBackup>) -> bool {
    if begin_outcome(st, k, refresh) == Some(Begin::Started) {
        &&& st2.contains_key(k)
        &&& st2 == st.insert(k, st2[k])
        &&& st2[k].loading
        &&& key_of(st2[k]) == k
        &&& st2[k].map@.len() == 0
    } else {
        st2 == st
    }
}

/// The comparisons that have been asked for, by their snapshot paths.
pub struct LoadedBackupsMap {
    entries: Vec<LoadedBackup>,
}

/// The map that a list of entries with unique keys stands for.
pub closed spec fn entries_map(entries: Seq<LoadedBackup>) -> Map<CacheKey, LoadedBackup> {
    Map::new(
        |k: CacheKey| exists|i: int| 0 <= i < entries.len() && key_of(entries[i]) == k,
        |k: CacheKey| entries[choose|i: int| 0 <= i < entries.len() && key_of(entries[i]) == k],
    )
}

impl View for LoadedBackupsMap {
    type V = Map<CacheKey, LoadedBackup>;

    closed spec fn view(&self) -> Map<CacheKey, LoadedBackup> {
        entries_map(self.entries@)
    }
}

/// Keys are unique.
pub closed spec fn unique_keys(entries: Seq<LoadedBackup>) -> bool {
    forall|i: int, j: int|
        0 <= i < entries.len() && 0 <= j < entries.len() && i != j ==> key_of(#[trigger] entries[i])
            != key_of(#[trigger] entries[j])
}

proof fn lemma_entry(entries: Seq<LoadedBackup>, i: int)
    requires
        unique_keys(entries),
        0 <= i < entries.len(),
    ensures
        entries_map(entries).contains_key(key_of(entries[i])),
        entries_map(entries)[key_of(entries[i])] == entries[i],
{
    let k = key_of(entries[i]);
    assert(exists|j: int| 0 <= j < entries.len() && key_of(entries[j]) == k);
    let j = choose|j: int| 0 <= j < entries.len() && key_of(entries[j]) == k;
    assert(i == j);
}

/// Replacing an entry by one with the same key, or adding one with a new key,
/// sets that key in the map.
proof fn lemma_put(entries: Seq<LoadedBackup>, after: Seq<LoadedBackup>, i: int, e: LoadedBackup)
    requires
        unique_keys(entries),
        0 <= i <= entries.len(),
        i < entries.len() ==> key_of(entries[i]) == key_of(e) && after == entries.update(i, e),
        i == entries.len() ==> !entries_map(entries).contains_key(key_of(e)) && after == entries.push(e),
    ensures
        unique_keys(after),
        entries_map(after) == entries_map(entries).insert(key_of(e), e),
{
    let k = key_of(e);
    if i == entries.len() {
        assert forall|j: int| 0 <= j < entries.len() implies key_of(#[trigger] entries[j]) != k by {
            if key_of(entries[j]) == k {
                lemma_entry(entries, j);
            }
        }
    }
    assert(after[i] == e);
    assert forall|j: int, l: int|
        0 <= j < after.len() && 0 <= l < after.len() && j != l implies key_of(#[trigger] after[j])
            != key_of(#[trigger] after[l]) by {
        if j != i && l != i {
            assert(after[j] == entries[j] && after[l] == entries[l]);
        } else if j == i {
            assert(after[l] == entries[l]);
        } else {
            assert(after[j] == entries[j]);
        }
    }
    lemma_entry(after, i);
    let m = entries_map(entries).insert(k, e);
    assert forall|k2: CacheKey| #[trigger] entries_map(after).contains_key(k2) == m.contains_key(k2) by {
        if k2 != k {
            if entries_map(entries).contains_key(k2) {
                let j = choose|j: int| 0 <= j < entries.len() && key_of(entries[j]) == k2;
                assert(after[j] == entries[j]);
            }
            if entries_map(after).contains_key(k2) {
                let j = choose|j: int| 0 <= j < after.len() && key_of(after[j]) == k2;
                assert(after[j] == entries[j]);
            }
        }
    }
    assert forall|k2: CacheKey| #[trigger] entries_map(after).contains_key(k2) implies entries_map(after)[k2] == m[k2] by {
        if k2 != k {
            let j = choose|j: int| 0 <= j < after.len() && key_of(after[j]) == k2;
            assert(after[j] == entries[j]);
            lemma_entry(entries, j);
            lemma_entry(after, j);
        }
    }
    assert(entries_map(after) =~= m);
}

/// Removing the entry at `i` removes its key from the map.
proof fn lemma_take(entries: Seq<LoadedBackup>, i: int)
    requires
        unique_keys(entries),
        0 <= i < entries.len(),
    ensures
        unique_keys(entries.remove(i)),
        entries_map(entries.remove(i)) == entries_map(entries).remove(key_of(entries[i])),
{
    let k = key_of(entries[i]);
    let after = entries.remove(i);
    assert forall|j: int| 0 <= j < after.len() implies #[trigger] after[j] == entries[if j < i { j } else { j + 1 }] by {}
    assert forall|j: int, l: int|
        0 <= j < after.len() && 0 <= l < after.len() && j != l implies key_of(#[trigger] after[j])
            != key_of(#[trigger] after[l]) by {
        assert(after[j] == entries[if j < i { j } else { j + 1 }]);
        assert(after[l] == entries[if l < i { l } else { l + 1 }]);
    }
    let m = entries_map(entries).remove(k);
    assert forall|k2: CacheKey| #[trigger] entries_map(after).contains_key(k2) == m.contains_key(k2) by {
        if entries_map(after).contains_key(k2) {
            let j = choose|j: int| 0 <= j < after.len() && key_of(after[j]) == k2;
            let j2 = if j < i { j } else { j + 1 };
            assert(after[j] == entries[j2]);
            assert(j2 != i);
        }
        if m.contains_key(k2) {
            let j = choose|j: int| 0 <= j < entries.len() && key_of(entries[j]) == k2;
            assert(j != i);
            let j2 = if j < i { j } else { j - 1 };
            assert(after[j2] == entries[j]);
        }
    }
    assert forall|k2: CacheKey| #[trigger] entries_map(after).contains_key(k2) implies entries_map(after)[k2] == m[k2] by {
        let j = choose|j: int| 0 <= j < after.len() && key_of(after[j]) == k2;
        let j2 = if j < i { j } else { j + 1 };
        assert(after[j] == entries[j2]);
        lemma_entry(entries, j2);
        lemma_entry(after, j);
    }
    assert(entries_map(after) =~= m);
}

impl LoadedBackupsMap {
    pub closed spec fn wf(&self) -> bool {
        unique_keys(self.entries@)
    }

    pub fn new() -> (r: Self)
        ensures
            r.wf(),
            r@ == Map::<CacheKey, LoadedBackup>::empty(),
    {
        let r = LoadedBackupsMap { entries: Vec::new() };
        assert(r@ =~= Map::<CacheKey, LoadedBackup>::empty());
        r
    }

    /// The position of the entry for `old_b` and `new_b`.
    fn find(&self, old_b: &str, new_b: &str) -> (r: Option<usize>)
        requires
            self.wf(),
        ensures
            match r {
                Some(i) => i < self.entries@.len() && key_of(self.entries@[i as int]) == (old_b@, new_b@)
                    && self@.contains_key((old_b@, new_b@)) && self@[(old_b@, new_b@)] == self.entries@[i as int],
                None => !self@.contains_key((old_b@, new_b@)),
            },
    {
        let o = String::from_str(old_b);
        let n = String::from_str(new_b);
        let mut i: usize = 0;
        while i < self.entries.len()
            invariant
                i <= self.entries@.len(),
                self.wf(),
                o@ == old_b@,
                n@ == new_b@,
                forall|j: int| 0 <= j < i ==> key_of(#[trigger] self.entries@[j]) != (old_b@, new_b@),
            decreases self.entries@.len() - i,
        {
            if self.entries[i].old == o && self.entries[i].new == n {
                proof {
                    lemma_entry(self.entries@, i as int);
                }
                return Some(i);
            }
            i = i + 1;
        }
        None
    }

    /// Puts `e` under its key.
    fn put(&mut self, e: LoadedBackup)
        requires
            old(self).wf(),
        ensures
            final(self).wf(),
            final(self)@ == old(self)@.insert(key_of(e), e),
    {
        let ghost ge = e;
        match self.find(e.old.as_str(), e.new.as_str()) {
            Some(i) => {
                self.entries.set(i, e);
                proof {
                    lemma_put(old(self).entries@, self.entries@, i as int, ge);
                }
            },
            None => {
                self.entries.push(e);
                proof {
                    lemma_put(old(self).entries@, self.entries@, old(self).entries@.len() as int, ge);
                }
            },
        }
    }

    /// Asks for the comparison of `old_b` with `new_b`. A computed comparison
    /// is answered from the cache unless `refresh` asks for a new one; one that
    /// is being computed is not computed a second time; otherwise the caller
    /// starts computing it.
    pub fn begin(&mut self, old_b: &str, new_b: &str, refresh: bool) -> (r: Result<Begin, Error>)
        requires
            old(self).wf(),
        ensures
            final(self).wf(),
            match begin_outcome(old(self)@, (old_b@, new_b@), refresh) {
                Some(b) => r == Ok::<Begin, Error>(b),
                None => r matches Err(Error::AlreadyLoading),
            },
            begin_state(old(self)@, (old_b@, new_b@), refresh, final(self)@),
    {
        match self.find(old_b, new_b) {
            Some(i) => {
                if !self.entries[i].loading && !refresh {
                    return Ok(Begin::Cached);
                }
                if self.entries[i].loading {
                    return Err(Error::AlreadyLoading);
                }
            },
            None => {},
        }
        let fresh = LoadedBackup {
            old: String::from_str(old_b),
            new: String::from_str(new_b),
            map: DirMap::new(),
            loading: true,
        };
        self.put(fresh);
        Ok(Begin::Started)
    }

    /// Records the computed comparison of `old_b` with `new_b`.
    pub fn finish(&mut self, old_b: String, new_b: String, map: DirMap)
        requires
            old(self).wf(),
        ensures
            final(self).wf(),
            final(self)@ == old(self)@.insert(
                (old_b@, new_b@),
                (LoadedBackup { old: old_b, new: new_b, map: map, loading: false }),
            ),
    {
        self.put(LoadedBackup { old: old_b, new: new_b, map, loading: false });
    }

    /// Forgets the comparison of `old_b` with `new_b`, whose computation failed.
    pub fn abandon(&mut self, old_b: &str, new_b: &str)
        requires
            old(self).wf(),
        ensures
            final(self).wf(),
            final(self)@ == old(self)@.remove((old_b@, new_b@)),
    {
        match self.find(old_b, new_b) {
            Some(i) => {
                proof {
                    lemma_take(self.entries@, i as int);
                }
                self.entries.remove(i);
            },
            None => {
                assert(self@ =~= old(self)@.remove((old_b@, new_b@)));
            },
        }
    }

    /// The computed comparison of `old_b` with `new_b`.
    pub fn get(&self, old_b: &str, new_b: &str) -> (r: Option<&DirMap>)
        requires
            self.wf(),
        ensures
            match r {
                Some(m) => populated(self@, (old_b@, new_b@)) && *m == self@[(old_b@, new_b@)].map,
                None => !populated(self@, (old_b@, new_b@)),
            },
    {
        match self.find(old_b, new_b) {
            Some(i) => if self.entries[i].loading {
                None
            } else {
                Some(&self.entries[i].map)
            },
            None => None,
        }
    }

    /// The comparisons being computed or computed, each once.
    pub fn info(&self) -> (r: Vec<BackupInfo>)
        requires
            self.wf(),
        ensures
            r@.len() == self@.len(),
            forall|i: int|
                0 <= i < r@.len() ==> self@.contains_key(#[trigger] info_key(r@[i])) && self@[info_key(
                    r@[i],
                )].loading == r@[i].loading,
            forall|k: CacheKey| #[trigger]
                self@.contains_key(k) ==> exists|i: int| 0 <= i < r@.len() && info_key(r@[i]) == k,
            forall|i: int, j: int|
                0 <= i < r@.len() && 0 <= j < r@.len() && i != j ==> info_key(#[trigger] r@[i])
                    != info_key(#[trigger] r@[j]),
    {
        let mut r: Vec<BackupInfo> = Vec::new();
        let mut i: usize = 0;
        while i < self.entries.len()
            invariant
                i <= self.entries@.len(),
                self.wf(),
                r@.len() == i,
                forall|j: int| 0 <= j < i ==> info_key(#[trigger] r@[j]) == key_of(self.entries@[j])
                    && r@[j].loading == self.entries@[j].loading,
            decreases self.entries@.len() - i,
        {
            let e = &self.entries[i];
            r.push(BackupInfo { old: e.old.clone(), new: e.new.clone(), loading: e.loading });
            i = i + 1;
        }
        proof {
            assert forall|j: int| 0 <= j < r@.len() implies self@.contains_key(#[trigger] info_key(r@[j]))
                && self@[info_key(r@[j])].loading == r@[j].loading by {
                lemma_entry(self.entries@, j);
            }
            assert forall|k: CacheKey| #[trigger] self@.contains_key(k) implies exists|j: int|
                0 <= j < r@.len() && info_key(r@[j]) == k by {
                let j = choose|j: int| 0 <= j < self.entries@.len() && key_of(self.entries@[j]) == k;
                assert(info_key(r@[j]) == k);
            }
            assert forall|j: int, l: int|
                0 <= j < r@.len() && 0 <= l < r@.len() && j != l implies info_key(#[trigger] r@[j])
                    != info_key(#[trigger] r@[l]) by {
                assert(key_of(self.entries@[j]) != key_of(self.entries@[l]));
            }
            lemma_len(self.entries@);
        }
        r
    }
}

proof fn lemma_len(entries: Seq<LoadedBackup>)
    requires
        unique_keys(entries),
    ensures
        entries_map(entries).len() == entries.len(),
    decreases entries.len(),
{
    if entries.len() > 0 {
        let front = entries.drop_last();
        assert(unique_keys(front)) by {
            assert forall|i: int, j: int|
                0 <= i < front.len() && 0 <= j < front.len() && i != j implies key_of(#[trigger] front[i])
                    != key_of(#[trigger] front[j]) by {
                assert(front[i] == entries[i] && front[j] == entries[j]);
            }
        }
        lemma_len(front);
        let e = entries.last();
        assert(!entries_map(front).contains_key(key_of(e))) by {
            if entries_map(front).contains_key(key_of(e)) {
                let j = choose|j: int| 0 <= j < front.len() && key_of(front[j]) == key_of(e);
                assert(front[j] == entries[j]);
            }
        }
        assert(entries =~= front.push(e));
        lemma_put(front, entries, front.len() as int, e);
        lemma_finite(front);
    } else {
        assert(entries_map(entries) =~= Map::<CacheKey, LoadedBackup>::empty());
    }
}

proof fn lemma_finite(entries: Seq<LoadedBackup>)
    ensures
        entries_map(entries).dom().finite(),
    decreases entries.len(),
{
    if entries.len() == 0 {
        assert(entries_map(entries).dom() =~= Set::<CacheKey>::empty());
    } else {
        let front = entries.drop_last();
        lemma_finite(front);
        assert(entries_map(entries).dom() =~= entries_map(front).dom().insert(key_of(entries.last()))) by {
            assert forall|k: CacheKey| #[trigger] entries_map(entries).dom().contains(k) implies entries_map(front).dom().insert(key_of(entries.last())).contains(k) by {
                let j = choose|j: int| 0 <= j < entries.len() && key_of(entries[j]) == k;
                if j < front.len() {
                    assert(front[j] == entries[j]);
                }
            }
            assert forall|k: CacheKey| entries_map(front).dom().insert(key_of(entries.last())).contains(k) implies #[trigger] entries_map(entries).dom().contains(k) by {
                if k == key_of(entries.last()) {
                    assert(key_of(entries[entries.len() - 1]) == k);
                } else {
                    let j = choose|j: int| 0 <= j < front.len() && key_of(front[j]) == k;
                    assert(front[j] == entries[j]);
                }
            }
        }
    }
}

/// A comparison that has been asked for, as a progress report shows it.
pub struct BackupInfo {
    pub old: String,
    pub new: String,
    pub loading: bool,
}

pub open spec fn info_key(i: BackupInfo) -> CacheKey {
    (i.old@, i.new@)
}

/// Asking twice for a computed comparison without refreshing answers from the
/// cache both times and leaves the cache as it was, so both answers read the
/// same map and nothing is computed.
pub proof fn lemma_cached_reads_agree(
    st: Map<CacheKey, LoadedBackup>,
    k: CacheKey,
    st1: Map<CacheKey, LoadedBackup>,
    st2: Map<CacheKey, LoadedBackup>,
)
    requires
        populated(st, k),
        begin_state(st, k, false, st1),
        begin_state(st1, k, false, st2),
    ensures
        begin_outcome(st, k, false) == Some(Begin::Cached),
        begin_outcome(st1, k, false) == Some(Begin::Cached),
        st1 == st,
        st2 == st,
        st2[k].map == st1[k].map,
{
}

/// Of two requests for a comparison that is not in the cache, the first starts
/// computing it and the second, refreshing or not, is told that it is already
/// being computed, and changes nothing.
pub proof fn lemma_one_computation_at_a_time(
    st: Map<CacheKey, LoadedBackup>,
    k: CacheKey,
    refresh1: bool,
    refresh2: bool,
    st1: Map<CacheKey, LoadedBackup>,
    st2: Map<CacheKey, LoadedBackup>,
)
    requires
        !st.contains_key(k),
        begin_state(st, k, refresh1, st1),
        begin_state(st1, k, refresh2, st2),
    ensures
        begin_outcome(st, k, refresh1) == Some(Begin::Started),
        begin_outcome(st1, k, refresh2) is None,
        st2 == st1,
{
}

/// Once a failed computation is abandoned, the next request for the same
/// comparison starts a fresh computation.
pub proof fn lemma_retry_after_failure(st: Map<CacheKey, LoadedBackup>, k: CacheKey, refresh: bool)
    requires
        loading(st, k),
    ensures
        !st.remove(k).contains_key(k),
        begin_outcome(st.remove(k), k, refresh) == Some(Begin::Started),
{
}

} // verus!
