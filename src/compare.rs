use vstd::prelude::*;

verus! {

/// A file or directory entry reported by a comparison.
#[derive(Debug)]
pub struct Item {
    pub path: String,
    pub size: u64,
}

#[derive(Debug)]
pub struct Add {
    pub added_item: Item,
}

#[derive(Debug)]
pub struct Update {
    pub differences: Vec<String>,
    pub newer_item: Item,
    pub older_item: Item,
}

#[derive(Debug)]
pub struct Delete {
    pub removed_item: Item,
}

/// One change between two snapshots.
#[derive(Debug)]
pub enum Change {
    Add(Add),
    Update(Update),
    Delete(Delete),
}

/// Summary counters as the comparison tool reports them.
#[derive(Debug)]
pub struct Totals {
    pub added_size: u64,
    pub changed_size: u64,
    pub removed_size: u64,
}

/// The decoded result of comparing two snapshots.
#[derive(Debug)]
pub struct Comparison {
    pub changes: Vec<Change>,
    pub totals: Totals,
}

/// The item that a change leaves in the newer snapshot: the added item, or the
/// newer side of an update. A deletion leaves none.
pub open spec fn new_item(c: Change) -> Option<Item> {
    match c {
        Change::Add(a) => Some(a.added_item),
        Change::Update(u) => Some(u.newer_item),
        Change::Delete(_) => None,
    }
}

/// The sum of the sizes of the items that the changes leave.
pub open spec fn new_items_size(cs: Seq<Change>) -> int
    decreases cs.len(),
{
    if cs.len() == 0 {
        0
    } else {
        new_items_size(cs.drop_last()) + match new_item(cs.last()) {
            Some(it) => it.size as int,
            None => 0,
        }
    }
}

impl Comparison {
    /// The sum of the sizes of the added items and of the newer sides of updates,
    /// where it fits in 64 bits.
    pub fn new_items_size(&self) -> (r: Option<u64>)
        ensures
            match r {
                Some(n) => n == new_items_size(self.changes@),
                None => new_items_size(self.changes@) > u64::MAX,
            },
    {
        let mut total: u64 = 0;
        let mut i: usize = 0;
        while i < self.changes.len()
            invariant
                i <= self.changes@.len(),
                total == new_items_size(self.changes@.subrange(0, i as int)),
            decreases self.changes@.len() - i,
        {
            proof {
                assert(self.changes@.subrange(0, i + 1).drop_last() =~= self.changes@.subrange(0, i as int));
            }
            let size: u64 = match &self.changes[i] {
                Change::Add(a) => a.added_item.size,
                Change::Update(u) => u.newer_item.size,
                Change::Delete(_) => 0,
            };
            if total > u64::MAX - size {
                proof {
                    lemma_new_items_size_grows(self.changes@, i as int + 1);
                }
                return None;
            }
            total = total + size;
            i = i + 1;
        }
        assert(self.changes@.subrange(0, i as int) =~= self.changes@);
        Some(total)
    }
}

/// The size only grows as more changes are taken.
pub proof fn lemma_new_items_size_grows(cs: Seq<Change>, k: int)
    requires
        0 <= k <= cs.len(),
    ensures
        new_items_size(cs.subrange(0, k)) <= new_items_size(cs),
    decreases cs.len() - k,
{
    if k < cs.len() {
        lemma_new_items_size_grows(cs, k + 1);
        assert(cs.subrange(0, k + 1).drop_last() =~= cs.subrange(0, k));
    } else {
        assert(cs.subrange(0, k) =~= cs);
    }
}

} // verus!
