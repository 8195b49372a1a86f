use vstd::prelude::*;
use vstd::hash_map::StringHashMap;

verus! {

/// A map from strings to values that remembers the order in which keys were
/// first inserted. Lookups go through a hash index.
pub struct StrMap<V> {
    keys: Vec<String>,
    values: Vec<V>,
    index: StringHashMap<usize>,
}

impl<V> View for StrMap<V> {
    type V = Map<Seq<char>, V>;

    closed spec fn view(&self) -> Map<Seq<char>, V> {
        Map::new(
            |k: Seq<char>| self.index@.contains_key(k),
            |k: Seq<char>| self.values@[self.index@[k] as int],
        )
    }
}

impl<V> StrMap<V> {
    /// The keys and the index agree: the key at position `i` is indexed at `i`,
    /// and every indexed key sits at its position.
    pub closed spec fn wf(&self) -> bool {
        &&& self.keys@.len() == self.values@.len()
        &&& forall|i: int|
            0 <= i < self.keys@.len() ==> #[trigger] self.index@.contains_key(self.keys@[i]@)
                && self.index@[self.keys@[i]@] == i
        &&& forall|k: Seq<char>|
            #[trigger] self.index@.contains_key(k) ==> self.index@[k] < self.keys@.len()
                && self.keys@[self.index@[k] as int]@ == k
    }

    pub fn new() -> (r: Self)
        ensures
            r.wf(),
            r@ == Map::<Seq<char>, V>::empty(),
    {
        let r = StrMap { keys: Vec::new(), values: Vec::new(), index: StringHashMap::new() };
        assert(r@ =~= Map::<Seq<char>, V>::empty());
        r
    }

    pub fn get_mut(&mut self, k: &str) -> (r: Option<&mut V>)
        requires
            old(self).wf(),
        ensures
            final(self).wf(),
            match r {
                Some(v) => old(self)@.contains_key(k@) && *v == old(self)@[k@]
                    && final(self)@ == old(self)@.insert(k@, *final(v)),
                None => !old(self)@.contains_key(k@) && *final(self) == *old(self),
            },
    {
        if self.index.contains_key(k) {
            Some(self.value_mut(k))
        } else {
            None
        }
    }

    /// The keys in the order in which they were first inserted.
    pub closed spec fn key_order(&self) -> Seq<Seq<char>> {
        self.keys@.map_values(|k: String| k@)
    }

    pub proof fn lemma_key_order(&self)
        requires
            self.wf(),
        ensures
            self.key_order().no_duplicates(),
            self.key_order().len() == self@.dom().len(),
            forall|k: Seq<char>| #[trigger] self@.contains_key(k) <==> self.key_order().contains(k),
    {
        assert forall|i: int, j: int|
            0 <= i < self.key_order().len() && 0 <= j < self.key_order().len() && i != j implies
            self.key_order()[i] != self.key_order()[j] by {
            assert(self.index@.contains_key(self.keys@[i]@));
            assert(self.index@.contains_key(self.keys@[j]@));
        }
        assert forall|k: Seq<char>| #[trigger] self@.contains_key(k) implies self.key_order().contains(k) by {
            let i = self.index@[k] as int;
            assert(self.key_order()[i] == k);
        }
        assert forall|k: Seq<char>| self.key_order().contains(k) implies #[trigger] self@.contains_key(k) by {
            let i = choose|i: int| 0 <= i < self.key_order().len() && self.key_order()[i] == k;
            assert(self.index@.contains_key(self.keys@[i]@));
        }
        self.key_order().unique_seq_to_set();
        assert(self.key_order().to_set() =~= self@.dom());
    }

    proof fn lemma_pushed(&self, before: &Self, n: usize)
        requires
            before.wf(),
            n == before.keys@.len(),
            self.keys@.len() == n + 1,
            !before.index@.contains_key(self.keys@[n as int]@),
            self.keys@ == before.keys@.push(self.keys@[n as int]),
            self.values@.len() == n + 1,
            self.index@ == before.index@.insert(self.keys@[n as int]@, n),
        ensures
            self.wf(),
    {
        assert forall|i: int| 0 <= i < self.keys@.len() implies #[trigger] self.index@.contains_key(
            self.keys@[i]@) && self.index@[self.keys@[i]@] == i by {
            if i < n {
                assert(self.keys@[i] == before.keys@[i]);
                assert(before.index@.contains_key(before.keys@[i]@));
            }
        }
        assert forall|k: Seq<char>| #[trigger] self.index@.contains_key(k) implies self.index@[k]
            < self.keys@.len() && self.keys@[self.index@[k] as int]@ == k by {
            if k != self.keys@[n as int]@ {
                assert(before.index@.contains_key(k));
                assert(self.keys@[before.index@[k] as int] == before.keys@[before.index@[k] as int]);
            }
        }
    }

    pub fn len(&self) -> (r: usize)
        requires
            self.wf(),
        ensures
            r == self@.len(),
            r == self.key_order().len(),
    {
        proof { self.lemma_key_order(); }
        self.keys.len()
    }

    pub fn key_at(&self, i: usize) -> (r: &String)
        requires
            self.wf(),
            i < self.key_order().len(),
        ensures
            r@ == self.key_order()[i as int],
            self@.contains_key(r@),
    {
        proof { self.lemma_key_order(); }
        &self.keys[i]
    }

    pub fn value_at(&self, i: usize) -> (r: &V)
        requires
            self.wf(),
            i < self.key_order().len(),
        ensures
            *r == self@[self.key_order()[i as int]],
    {
        &self.values[i]
    }

    pub fn get(&self, k: &str) -> (r: Option<&V>)
        requires
            self.wf(),
        ensures
            match r {
                Some(v) => self@.contains_key(k@) && *v == self@[k@],
                None => !self@.contains_key(k@),
            },
    {
        match self.index.get(k) {
            Some(i) => Some(&self.values[*i]),
            None => None,
        }
    }

    pub fn contains_key(&self, k: &str) -> (r: bool)
        requires
            self.wf(),
        ensures
            r == self@.contains_key(k@),
    {
        self.index.contains_key(k)
    }

    /// The value under `k`, inserting `default` first where `k` is absent.
    pub fn get_or_insert(&mut self, k: String, default: V) -> (r: &mut V)
        requires
            old(self).wf(),
        ensures
            final(self).wf(),
            *r == (if old(self)@.contains_key(k@) { old(self)@[k@] } else { default }),
            final(self)@ =~= old(self)@.insert(k@, *final(r)),
            old(self)@.contains_key(k@) ==> final(self).key_order() == old(self).key_order(),
            !old(self)@.contains_key(k@) ==> final(self).key_order() == old(self).key_order().push(k@),
    {
        if !self.index.contains_key(k.as_str()) {
            self.push_new(k.clone(), default);
        }
        self.value_mut(k.as_str())
    }

    fn value_mut(&mut self, k: &str) -> (r: &mut V)
        requires
            old(self).wf(),
            old(self)@.contains_key(k@),
        ensures
            final(self).wf(),
            *r == old(self)@[k@],
            final(self)@ == old(self)@.insert(k@, *final(r)),
            final(self).key_order() == old(self).key_order(),
    {
        let i: usize = match self.index.get(k) {
            Some(i) => *i,
            None => 0,
        };
        &mut self.values[i]
    }

    fn push_new(&mut self, k: String, v: V) -> (i: usize)
        requires
            old(self).wf(),
            !old(self)@.contains_key(k@),
        ensures
            final(self).wf(),
            i == old(self).key_order().len(),
            final(self).key_order() == old(self).key_order().push(k@),
            final(self)@ == old(self)@.insert(k@, v),
            i < final(self).values@.len(),
            final(self).values@[i as int] == v,
            final(self).index@.contains_key(k@),
            final(self).index@[k@] == i,
    {
        let n = self.keys.len();
        let ghost old_map = self@;
        self.index.insert(k.clone(), n);
        self.keys.push(k);
        self.values.push(v);
        proof { self.lemma_pushed(old(self), n); }
        assert(self.key_order() =~= old(self).key_order().push(self.keys@[n as int]@));
        assert(self@ =~= old_map.insert(self.keys@[n as int]@, v));
        n
    }

    /// Sets the value under `k`, keeping its position where it was present.
    pub fn insert(&mut self, k: String, v: V)
        requires
            old(self).wf(),
        ensures
            final(self).wf(),
            final(self)@ == old(self)@.insert(k@, v),
    {
        match self.index.get(k.as_str()) {
            Some(i) => {
                let i = *i;
                let ghost old_map = self@;
                self.values.set(i, v);
                assert(self@ =~= old_map.insert(k@, v));
            },
            None => {
                self.push_new(k, v);
            },
        }
    }
}

} // verus!
