use vstd::prelude::*;
use crate::compare::{Change, Comparison, new_item, new_items_size, lemma_new_items_size_grows};
use crate::error::Error;
use crate::path::{
    basename_of, components, components_of, get_basename, get_parent, has_basename, has_parent,
    is_absolute, is_normal, is_normal_part, last_abnormal, lemma_last_abnormal, lemma_render_step,
    lemma_walk_keys, parent_of, render, render_parts, walk_error, walk_keys,
};
use crate::str_map::StrMap;

verus! {

/// The size attributed to one path.
#[derive(Clone, Copy, Debug)]
pub struct LoadedBackupItem {
    pub size: u64,
}

/// Base name to item, for the entries of one directory.
pub type DirContents = StrMap<LoadedBackupItem>;

/// Directory path to the entries below it.
pub struct DirMap {
    pub map: StrMap<DirContents>,
}

impl View for DirMap {
    type V = Map<Seq<char>, Map<Seq<char>, LoadedBackupItem>>;

    closed spec fn view(&self) -> Self::V {
        Map::new(|d: Seq<char>| self.map@.contains_key(d), |d: Seq<char>| self.map@[d]@)
    }
}

/// An entry of a directory map: a directory and a name in it.
pub type EntryKey = (Seq<char>, Seq<char>);

/// `c` leaves an item whose walk to the root passes entry `k`: `k` names the
/// item itself or a directory above it.
pub open spec fn touches(c: Change, k: EntryKey) -> bool {
    match new_item(c) {
        Some(it) => walk_keys(it.path@).contains(k),
        None => false,
    }
}

/// Some change leaves an item at or below entry `k`.
pub open spec fn touched(cs: Seq<Change>, k: EntryKey) -> bool {
    exists|i: int| 0 <= i < cs.len() && #[trigger] touches(cs[i], k)
}

/// The sum of the sizes of the items that the changes leave at or below entry `k`.
pub open spec fn size_under(cs: Seq<Change>, k: EntryKey) -> int
    decreases cs.len(),
{
    if cs.len() == 0 {
        0
    } else {
        size_under(cs.drop_last(), k) + if touches(cs.last(), k) {
            new_item(cs.last())->0.size as int
        } else {
            0
        }
    }
}

/// A change leaves an item whose walk to the root stops short.
pub open spec fn malformed(c: Change) -> bool {
    match new_item(c) {
        Some(it) => walk_error(it.path@) is Some,
        None => false,
    }
}

/// Where the walk stops short for the first change whose walk does.
pub open spec fn first_malformed(cs: Seq<Change>) -> Option<Seq<char>>
    decreases cs.len(),
{
    if cs.len() == 0 {
        None
    } else {
        match first_malformed(cs.drop_last()) {
            Some(p) => Some(p),
            None => if malformed(cs.last()) {
                walk_error(new_item(cs.last())->0.path@)
            } else {
                None
            },
        }
    }
}

/// `m` holds, for the changes `cs` and then for the entries `extra` of one
/// more item of size `size`, the aggregated size of every entry that they
/// touch, and nothing else.
pub open spec fn aggregates_with(
    cs: Seq<Change>,
    extra: Seq<EntryKey>,
    size: int,
    m: Map<Seq<char>, Map<Seq<char>, LoadedBackupItem>>,
) -> bool {
    &&& forall|k: EntryKey|
        #![trigger touched(cs, k)]
        #![trigger extra.contains(k)]
        touched(cs, k) || extra.contains(k) ==> {
            &&& m.contains_key(k.0)
            &&& m[k.0].contains_key(k.1)
            &&& m[k.0][k.1].size == size_under(cs, k) + if extra.contains(k) {
                size
            } else {
                0
            }
        }
    &&& forall|d: Seq<char>, b: Seq<char>|
        m.contains_key(d) && #[trigger] m[d].contains_key(b) ==> touched(cs, (d, b)) || extra.contains((d, b))
    &&& forall|d: Seq<char>| #[trigger] m.contains_key(d) ==> exists|b: Seq<char>| m[d].contains_key(b)
}

/// `m` is the directory map of the changes `cs`: each entry (parent directory,
/// file name) that the walk from an added item or the newer side of an update
/// up to the root passes is in `m`, with the sum of the sizes of those items
/// at or below it; there are no other entries.
pub open spec fn aggregates(cs: Seq<Change>, m: Map<Seq<char>, Map<Seq<char>, LoadedBackupItem>>) -> bool {
    aggregates_with(cs, seq![], 0, m)
}

impl DirMap {
    /// Every directory's contents are well formed.
    pub closed spec fn wf(&self) -> bool {
        &&& self.map.wf()
        &&& forall|d: Seq<char>| #[trigger] self.map@.contains_key(d) ==> self.map@[d].wf()
    }

    pub fn new() -> (r: Self)
        ensures
            r.wf(),
            r@ == Map::<Seq<char>, Map<Seq<char>, LoadedBackupItem>>::empty(),
    {
        let r = DirMap { map: StrMap::new() };
        assert(r@ =~= Map::<Seq<char>, Map<Seq<char>, LoadedBackupItem>>::empty());
        r
    }

    /// The contents of directory `path`, created empty where absent.
    pub fn get_or_create_dir(&mut self, path: String) -> (r: &mut DirContents)
        requires
            old(self).wf(),
        ensures
            r.wf(),
            r@ == (if old(self)@.contains_key(path@) { old(self)@[path@] } else { Map::empty() }),
            final(self)@ =~= old(self)@.insert(path@, final(r)@),
            final(r).wf() ==> final(self).wf(),
    {
        self.map.get_or_insert(path, StrMap::new())
    }

    /// The contents of the parent directory of `path`, created empty where
    /// absent, and the file name of `path`: where its item goes.
    pub fn item_entry(&mut self, path: &str) -> (r: Result<(&mut DirContents, String), Error>)
        requires
            old(self).wf(),
        ensures
            match r {
                Ok((contents, name)) => {
                    let d = parent_of(path@);
                    &&& has_parent(path@) && has_basename(path@)
                    &&& name@ == basename_of(path@)
                    &&& contents.wf()
                    &&& contents@ == (if old(self)@.contains_key(d) { old(self)@[d] } else { Map::empty() })
                    &&& final(self)@ == old(self)@.insert(d, final(contents)@)
                    &&& final(contents).wf() ==> final(self).wf()
                },
                Err(e) => !(has_parent(path@) && has_basename(path@)) && e.is_malformed_path(path@)
                    && *final(self) == *old(self),
            },
    {
        let dir = match get_parent(path) {
            Ok(d) => d,
            Err(e) => {
                return Err(e);
            },
        };
        let base = match get_basename(path) {
            Ok(b) => b,
            Err(e) => {
                return Err(e);
            },
        };
        Ok((self.get_or_create_dir(dir), base))
    }

    /// The directory map of a comparison: for each added item and the newer
    /// side of each update, its size is added to the entry of every path from
    /// the item itself up to the topmost directory. Deletions contribute
    /// nothing. A walk that stops short of the root is an error naming the
    /// ancestor where it stopped.
    pub fn from_comparison(comparison: Comparison) -> (r: Result<Self, Error>)
        requires
            new_items_size(comparison.changes@) <= u64::MAX,
        ensures
            match r {
                Ok(m) => m.wf() && first_malformed(comparison.changes@) is None && aggregates(
                    comparison.changes@,
                    m@,
                ),
                Err(e) => first_malformed(comparison.changes@) is Some && e.is_malformed_path(
                    first_malformed(comparison.changes@)->0,
                ),
            },
    {
        let mut dir_map = DirMap::new();
        let ghost cs = comparison.changes@;
        let mut k: usize = 0;
        proof {
            assert(aggregates(cs.subrange(0, 0), dir_map@));
        }
        while k < comparison.changes.len()
            invariant
                k <= cs.len(),
                cs == comparison.changes@,
                dir_map.wf(),
                aggregates(cs.subrange(0, k as int), dir_map@),
                first_malformed(cs.subrange(0, k as int)) is None,
                new_items_size(cs) <= u64::MAX,
            decreases cs.len() - k,
        {
            let ghost pre = cs.subrange(0, k as int);
            proof {
                assert(cs.subrange(0, k + 1).drop_last() =~= pre);
                lemma_new_items_size_grows(cs, k + 1);
                assert(cs.subrange(0, k + 1).last() == cs[k as int]);
            }
            let (path, size): (&String, u64) = match &comparison.changes[k] {
                Change::Add(a) => (&a.added_item.path, a.added_item.size),
                Change::Update(u) => (&u.newer_item.path, u.newer_item.size),
                Change::Delete(_) => {
                    proof {
                        lemma_change_done(cs, k as int, seq![], 0, dir_map@);
                        assert(first_malformed(cs.subrange(0, k + 1)) is None);
                    }
                    k = k + 1;
                    continue ;
                },
            };
            let comps = components_of(path.as_str());
            let ghost ps = comps@.map_values(|p: String| p@);
            let absolute = !path.as_str().is_empty() && path.as_str().get_char(0) == '/';
            assert(absolute == is_absolute(path@));
            // The deepest component that names no file stops the walk.
            let mut j: usize = comps.len();
            let mut found = false;
            while j > 0 && !found
                invariant
                    j <= ps.len(),
                    ps == comps@.map_values(|p: String| p@),
                    forall|i: int| j <= i < ps.len() ==> is_normal(#[trigger] ps[i]),
                    found ==> j > 0 && !is_normal(ps[j - 1]),
                decreases j + if found { 0int } else { 1int },
            {
                if is_normal_part(&comps[j - 1]) {
                    j = j - 1;
                } else {
                    found = true;
                }
            }
            proof {
                lemma_last_abnormal(ps);
                if found {
                    assert(last_abnormal(ps) == j - 1);
                } else {
                    assert(last_abnormal(ps) == -1);
                }
            }
            if found {
                proof {
                    assert(cs.subrange(0, k + 1).last() == cs[k as int]);
                    lemma_first_malformed_found(cs, k as int);
                }
                return Err(Error::MalformedPath(render_parts(absolute, &comps, j)));
            }
            if !absolute {
                proof {
                    lemma_first_malformed_found(cs, k as int);
                }
                return Err(Error::MalformedPath(String::new()));
            }
            let ghost extra = walk_keys(path@);
            proof {
                lemma_walk_keys(path@);
                assert(aggregates_with(pre, extra.subrange(0, 0), size as int, dir_map@)) by {
                    assert(extra.subrange(0, 0) =~= Seq::<EntryKey>::empty());
                }
                assert(first_malformed(cs.subrange(0, k + 1)) is None);
            }
            let mut dir = render_parts(true, &comps, 0);
            let mut i: usize = 0;
            while i < comps.len()
                invariant
                    i <= comps@.len() == extra.len(),
                    ps == comps@.map_values(|p: String| p@),
                    extra == walk_keys(path@),
                    ps == components(path@),
                    is_absolute(path@),
                    dir@ == render(true, ps.subrange(0, i as int)),
                    extra.no_duplicates(),
                    dir_map.wf(),
                    aggregates_with(pre, extra.subrange(0, i as int), size as int, dir_map@),
                    new_items_size(pre) + size <= u64::MAX,
                decreases comps@.len() - i,
            {
                let ghost before = dir_map@;
                let ghost key = extra[i as int];
                proof {
                    assert(key == (dir@, ps[i as int]));
                    lemma_entry_value(pre, extra, i as int, size as int, before);
                    lemma_size_under_bounds(pre, key);
                }
                let contents = dir_map.get_or_create_dir(dir.clone());
                let item = contents.get_or_insert(comps[i].clone(), LoadedBackupItem { size: 0 });
                item.size = item.size + size;
                let ghost v = *item;
                proof {
                    lemma_entry_added(pre, extra, i as int, size as int, before, v);
                    lemma_render_step(true, ps, i as int);
                }
                if i > 0 {
                    dir.append("/");
                }
                dir.append(comps[i].as_str());
                proof {
                    reveal_strlit("/");
                    if i == 0 {
                        assert(dir@ =~= render(true, ps.subrange(0, 0)) + Seq::<char>::empty() + ps[0]);
                    }
                }
                i = i + 1;
            }
            proof {
                assert(extra.subrange(0, i as int) =~= extra);
                lemma_change_done(cs, k as int, extra, size as int, dir_map@);
            }
            k = k + 1;
        }
        proof {
            assert(cs.subrange(0, k as int) =~= cs);
        }
        Ok(dir_map)
    }
}

proof fn lemma_size_under_bounds(cs: Seq<Change>, k: EntryKey)
    ensures
        0 <= size_under(cs, k) <= new_items_size(cs),
        !touched(cs, k) ==> size_under(cs, k) == 0,
    decreases cs.len(),
{
    if cs.len() > 0 {
        lemma_size_under_bounds(cs.drop_last(), k);
        if !touched(cs, k) {
            assert forall|i: int| 0 <= i < cs.drop_last().len() implies !touches(#[trigger] cs.drop_last()[i], k) by {
                assert(cs.drop_last()[i] == cs[i]);
            }
            assert(!touches(cs[cs.len() - 1], k));
        }
    }
}

/// Once a change is malformed, it stays the first malformed one as more changes follow.
proof fn lemma_first_malformed_found(cs: Seq<Change>, k: int)
    requires
        0 <= k < cs.len(),
        first_malformed(cs.subrange(0, k)) is None,
        malformed(cs[k]),
    ensures
        first_malformed(cs) == walk_error(new_item(cs[k])->0.path@),
        first_malformed(cs) is Some,
    decreases cs.len() - k,
{
    if k == cs.len() - 1 {
        assert(cs.drop_last() =~= cs.subrange(0, k));
    } else {
        assert(cs.drop_last().subrange(0, k) =~= cs.subrange(0, k));
        assert(cs.drop_last()[k] == cs[k]);
        lemma_first_malformed_found(cs.drop_last(), k);
    }
}

/// The entry for the next key holds what the changes put there so far.
proof fn lemma_entry_value(
    cs: Seq<Change>,
    extra: Seq<EntryKey>,
    j: int,
    s: int,
    m: Map<Seq<char>, Map<Seq<char>, LoadedBackupItem>>,
)
    requires
        0 <= j < extra.len(),
        extra.no_duplicates(),
        aggregates_with(cs, extra.subrange(0, j), s, m),
    ensures
        ({
            let k = extra[j];
            let inner = if m.contains_key(k.0) { m[k.0] } else { Map::empty() };
            (if inner.contains_key(k.1) { inner[k.1].size as int } else { 0 }) == size_under(cs, k)
        }),
{
    let k = extra[j];
    let pre = extra.subrange(0, j);
    assert(extra.contains(k));
    assert(!pre.contains(k)) by {
        if pre.contains(k) {
            let i = choose|i: int| 0 <= i < pre.len() && pre[i] == k;
            assert(extra[i] == extra[j]);
        }
    }
    if m.contains_key(k.0) && m[k.0].contains_key(k.1) {
        assert(touched(cs, (k.0, k.1)) || pre.contains((k.0, k.1)));
        assert((k.0, k.1) == k);
    } else {
        lemma_size_under_bounds(cs, k);
    }
}

/// Adding the size to the next key's entry extends the aggregation by that key.
proof fn lemma_entry_added(
    cs: Seq<Change>,
    extra: Seq<EntryKey>,
    j: int,
    s: int,
    m: Map<Seq<char>, Map<Seq<char>, LoadedBackupItem>>,
    v: LoadedBackupItem,
)
    requires
        0 <= j < extra.len(),
        extra.no_duplicates(),
        aggregates_with(cs, extra.subrange(0, j), s, m),
        v.size == size_under(cs, extra[j]) + s,
    ensures
        ({
            let k = extra[j];
            let inner = if m.contains_key(k.0) { m[k.0] } else { Map::empty() };
            aggregates_with(cs, extra.subrange(0, j + 1), s, m.insert(k.0, inner.insert(k.1, v)))
        }),
{
    let k = extra[j];
    let d = k.0;
    let b = k.1;
    let inner = if m.contains_key(d) { m[d] } else { Map::empty() };
    let m2 = m.insert(d, inner.insert(b, v));
    let pre = extra.subrange(0, j);
    let post = extra.subrange(0, j + 1);
    assert(post =~= pre.push(k));
    assert(post[j] == k);
    assert(!pre.contains(k)) by {
        if pre.contains(k) {
            let i = choose|i: int| 0 <= i < pre.len() && pre[i] == k;
            assert(extra[i] == extra[j]);
        }
    }
    assert forall|k2: EntryKey|
        #![trigger touched(cs, k2)]
        #![trigger post.contains(k2)]
        touched(cs, k2) || post.contains(k2) implies {
            &&& m2.contains_key(k2.0)
            &&& m2[k2.0].contains_key(k2.1)
            &&& m2[k2.0][k2.1].size == size_under(cs, k2) + if post.contains(k2) {
                s
            } else {
                0
            }
        } by {
        if k2 == k {
            assert(post.contains(k));
        } else {
            assert(post.contains(k2) == pre.contains(k2));
            assert(touched(cs, k2) || pre.contains(k2));
        }
    }
    assert forall|d2: Seq<char>, b2: Seq<char>|
        m2.contains_key(d2) && #[trigger] m2[d2].contains_key(b2) implies touched(cs, (d2, b2))
            || post.contains((d2, b2)) by {
        if d2 == d && b2 == b {
            assert(post.contains(k));
        } else {
            assert(m.contains_key(d2) && m[d2].contains_key(b2));
            if pre.contains((d2, b2)) {
                let i = choose|i: int| 0 <= i < pre.len() && pre[i] == (d2, b2);
                assert(post[i] == (d2, b2));
            }
        }
    }
    assert forall|d2: Seq<char>| #[trigger] m2.contains_key(d2) implies exists|b2: Seq<char>| m2[d2].contains_key(b2) by {
        if d2 == d {
            assert(m2[d2].contains_key(b));
        } else {
            assert(m.contains_key(d2));
            let b2 = choose|b2: Seq<char>| m[d2].contains_key(b2);
            assert(m2[d2].contains_key(b2));
        }
    }
}

/// After the last entry of one more change, the aggregation covers that change.
proof fn lemma_change_done(
    cs: Seq<Change>,
    k: int,
    extra: Seq<EntryKey>,
    s: int,
    m: Map<Seq<char>, Map<Seq<char>, LoadedBackupItem>>,
)
    requires
        0 <= k < cs.len(),
        aggregates_with(cs.subrange(0, k), extra, s, m),
        forall|key: EntryKey| #[trigger] touches(cs[k], key) <==> extra.contains(key),
        new_item(cs[k]) is Some ==> new_item(cs[k])->0.size == s,
    ensures
        aggregates(cs.subrange(0, k + 1), m),
{
    let pre = cs.subrange(0, k);
    let post = cs.subrange(0, k + 1);
    assert(post.drop_last() =~= pre);
    assert(post.last() == cs[k]);
    assert forall|key: EntryKey| touched(post, key) <==> touched(pre, key) || extra.contains(key) by {
        if touched(post, key) {
            let i = choose|i: int| 0 <= i < post.len() && #[trigger] touches(post[i], key);
            if i < k {
                assert(pre[i] == post[i]);
            }
        }
        if touched(pre, key) {
            let i = choose|i: int| 0 <= i < pre.len() && #[trigger] touches(pre[i], key);
            assert(pre[i] == post[i]);
        }
        if extra.contains(key) {
            assert(touches(post[k], key));
        }
    }
    let e: Seq<EntryKey> = seq![];
    assert forall|key: EntryKey| #![trigger touched(post, key)] #![trigger e.contains(key)]
        touched(post, key) || e.contains(key) implies {
            &&& m.contains_key(key.0)
            &&& m[key.0].contains_key(key.1)
            &&& m[key.0][key.1].size == size_under(post, key) + if e.contains(key) { 0int } else { 0int }
        } by {
        assert(touched(pre, key) || extra.contains(key));
    }
    assert forall|d: Seq<char>, b: Seq<char>|
        m.contains_key(d) && #[trigger] m[d].contains_key(b) implies touched(post, (d, b)) || e.contains((d, b)) by {
        assert(touched(pre, (d, b)) || extra.contains((d, b)));
    }
}

/// In the directory map of some changes, every entry that the walk from an
/// added item or the newer side of an update passes (each ancestor below the
/// root, the item included, under its parent directory) is present, and holds
/// the total size of the items at or below it.
pub proof fn lemma_ancestor_entries(
    cs: Seq<Change>,
    m: Map<Seq<char>, Map<Seq<char>, LoadedBackupItem>>,
    i: int,
    j: int,
)
    requires
        aggregates(cs, m),
        0 <= i < cs.len(),
        new_item(cs[i]) is Some,
        0 <= j < walk_keys(new_item(cs[i])->0.path@).len(),
    ensures
        ({
            let k = walk_keys(new_item(cs[i])->0.path@)[j];
            &&& m.contains_key(k.0)
            &&& m[k.0].contains_key(k.1)
            &&& m[k.0][k.1].size == size_under(cs, k)
        }),
{
    let k = walk_keys(new_item(cs[i])->0.path@)[j];
    assert(touches(cs[i], k));
    assert(touched(cs, k));
}

/// A deletion adds nothing to any entry: the sizes are those of the other changes.
pub proof fn lemma_deletions_add_nothing(cs: Seq<Change>, k: int, key: EntryKey)
    requires
        0 <= k < cs.len(),
        cs[k] is Delete,
    ensures
        size_under(cs, key) == size_under(cs.remove(k), key),
    decreases cs.len(),
{
    if k == cs.len() - 1 {
        assert(cs.remove(k) =~= cs.drop_last());
    } else {
        lemma_deletions_add_nothing(cs.drop_last(), k, key);
        assert(cs.remove(k).drop_last() =~= cs.drop_last().remove(k));
        assert(cs.remove(k).last() == cs.last());
    }
}

proof fn lemma_deletions_not_malformed(cs: Seq<Change>, k: int)
    requires
        0 <= k < cs.len(),
        cs[k] is Delete,
    ensures
        first_malformed(cs) == first_malformed(cs.remove(k)),
    decreases cs.len(),
{
    if k == cs.len() - 1 {
        assert(cs.remove(k) =~= cs.drop_last());
    } else {
        lemma_deletions_not_malformed(cs.drop_last(), k);
        assert(cs.remove(k).drop_last() =~= cs.drop_last().remove(k));
        assert(cs.remove(k).last() == cs.last());
    }
}

proof fn lemma_deletions_size(cs: Seq<Change>, k: int)
    requires
        0 <= k < cs.len(),
        cs[k] is Delete,
    ensures
        new_items_size(cs) == new_items_size(cs.remove(k)),
    decreases cs.len(),
{
    if k == cs.len() - 1 {
        assert(cs.remove(k) =~= cs.drop_last());
    } else {
        lemma_deletions_size(cs.drop_last(), k);
        assert(cs.remove(k).drop_last() =~= cs.drop_last().remove(k));
        assert(cs.remove(k).last() == cs.last());
    }
}

/// Deletions change nothing: with a deletion taken out, the changes have the
/// same total size of new items (so `from_comparison` accepts both or
/// neither), the same first malformed path (so both fail alike or neither
/// does), and the same directory map.
pub proof fn lemma_deletions_do_not_matter(
    cs: Seq<Change>,
    k: int,
    m1: Map<Seq<char>, Map<Seq<char>, LoadedBackupItem>>,
    m2: Map<Seq<char>, Map<Seq<char>, LoadedBackupItem>>,
)
    requires
        0 <= k < cs.len(),
        cs[k] is Delete,
        aggregates(cs, m1),
        aggregates(cs.remove(k), m2),
    ensures
        m1 == m2,
        first_malformed(cs) == first_malformed(cs.remove(k)),
        new_items_size(cs) == new_items_size(cs.remove(k)),
{
    let cs2 = cs.remove(k);
    lemma_deletions_not_malformed(cs, k);
    lemma_deletions_size(cs, k);
    assert forall|key: EntryKey| touched(cs, key) == touched(cs2, key) by {
        if touched(cs, key) {
            let i = choose|i: int| 0 <= i < cs.len() && #[trigger] touches(cs[i], key);
            assert(i != k);
            let i2 = if i < k { i } else { i - 1 };
            assert(cs2[i2] == cs[i]);
        }
        if touched(cs2, key) {
            let i = choose|i: int| 0 <= i < cs2.len() && #[trigger] touches(cs2[i], key);
            let i2 = if i < k { i } else { i + 1 };
            assert(cs2[i] == cs[i2]);
        }
    }
    let e: Seq<EntryKey> = seq![];
    assert forall|d: Seq<char>| m1.contains_key(d) == m2.contains_key(d) by {
        if m1.contains_key(d) {
            let b = choose|b: Seq<char>| m1[d].contains_key(b);
            assert(touched(cs, (d, b)) || e.contains((d, b)));
            assert(touched(cs2, (d, b)));
        }
        if m2.contains_key(d) {
            let b = choose|b: Seq<char>| m2[d].contains_key(b);
            assert(touched(cs2, (d, b)) || e.contains((d, b)));
            assert(touched(cs, (d, b)));
        }
    }
    assert forall|d: Seq<char>| #[trigger] m1.contains_key(d) implies m1[d] == m2[d] by {
        assert forall|b: Seq<char>| m1[d].contains_key(b) == m2[d].contains_key(b) by {
            if m1[d].contains_key(b) {
                assert(touched(cs, (d, b)) || e.contains((d, b)));
                assert(touched(cs2, (d, b)));
            }
            if m2[d].contains_key(b) {
                assert(touched(cs2, (d, b)) || e.contains((d, b)));
                assert(touched(cs, (d, b)));
            }
        }
        assert forall|b: Seq<char>| #[trigger] m1[d].contains_key(b) implies m1[d][b] == m2[d][b] by {
            assert(touched(cs, (d, b)) || e.contains((d, b)));
            assert(touched(cs2, (d, b)));
            lemma_deletions_add_nothing(cs, k, (d, b));
            assert(m1[d][b].size == m2[d][b].size);
        }
        assert(m1[d] =~= m2[d]);
    }
    assert(m1 =~= m2);
}

} // verus!
