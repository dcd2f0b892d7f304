//! The in-memory index: where in the active log segment each live key's
//! latest `Put` record lies.
use vstd::hash_map::StringHashMap;
use vstd::prelude::*;

verus! {

/// The place of one record in a log segment.
#[derive(Clone, Copy, PartialEq, Eq, Structural, Debug)]
pub struct LogPointer {
    pub offset: u64,
    pub len: u64,
}

struct Entry {
    key: String,
    ptr: LogPointer,
}

/// The total length of the records that `ps` point to.
pub open spec fn len_sum(ps: Seq<LogPointer>) -> int
    decreases ps.len(),
{
    if ps.len() == 0 {
        0
    } else {
        len_sum(ps.drop_last()) + ps.last().len
    }
}

pub proof fn lemma_len_sum_update(ps: Seq<LogPointer>, i: int, p: LogPointer)
    requires
        0 <= i < ps.len(),
    ensures
        len_sum(ps.update(i, p)) == len_sum(ps) - ps[i].len + p.len,
    decreases ps.len(),
{
    if i < ps.len() - 1 {
        assert(ps.update(i, p).drop_last() =~= ps.drop_last().update(i, p));
        lemma_len_sum_update(ps.drop_last(), i, p);
    } else {
        assert(ps.update(i, p).drop_last() =~= ps.drop_last());
    }
}

/// No prefix of `ps` points to more bytes than `ps` does.
pub proof fn lemma_len_sum_prefix(ps: Seq<LogPointer>, i: int)
    requires
        0 <= i <= ps.len(),
    ensures
        0 <= len_sum(ps.take(i)) <= len_sum(ps),
    decreases ps.len(),
{
    if ps.len() > 0 {
        if i == ps.len() {
            assert(ps.take(i) =~= ps);
            lemma_len_sum_prefix(ps.drop_last(), i - 1);
            assert(ps.drop_last().take(i - 1) =~= ps.drop_last());
        } else {
            lemma_len_sum_prefix(ps.drop_last(), i);
            assert(ps.drop_last().take(i) =~= ps.take(i));
        }
    }
}

/// A map from keys to log pointers that can also be walked in a fixed order.
///
/// Entries sit densely in a vector; a hash map gives each key its slot.
pub struct KeyDir {
    slots: StringHashMap<usize>,
    entries: Vec<Entry>,
}

impl KeyDir {
    pub closed spec fn wf(&self) -> bool {
        &&& forall|i: int|
            #![trigger self.entries@[i]]
            0 <= i < self.entries@.len() ==> self.slots@.contains_key(self.entries@[i].key@)
                && self.slots@[self.entries@[i].key@] == i
        &&& forall|k: Seq<char>|
            #![trigger self.slots@[k]]
            self.slots@.contains_key(k) ==> self.slots@[k] < self.entries@.len()
                && self.entries@[self.slots@[k] as int].key@ == k
    }

    /// The keys, in the order in which the directory walks them.
    pub closed spec fn order(&self) -> Seq<Seq<char>> {
        self.entries@.map_values(|e: Entry| e.key@)
    }

    /// The pointers, in walk order.
    pub closed spec fn pointers(&self) -> Seq<LogPointer> {
        self.entries@.map_values(|e: Entry| e.ptr)
    }

    /// The total length of the records that the directory points to.
    pub open spec fn total(&self) -> int {
        len_sum(self.pointers())
    }

    pub closed spec fn view(&self) -> Map<Seq<char>, LogPointer> {
        Map::new(
            |k: Seq<char>| self.slots@.contains_key(k),
            |k: Seq<char>| self.entries@[self.slots@[k] as int].ptr,
        )
    }

    /// The walk order holds each key of the map exactly once.
    pub proof fn lemma_order(&self)
        requires
            self.wf(),
        ensures
            self.order().no_duplicates(),
            forall|k: Seq<char>| self@.contains_key(k) <==> self.order().contains(k),
            forall|i: int|
                0 <= i < self.order().len() ==> self@.contains_key(#[trigger] self.order()[i]),
            self@.len() == self.order().len(),
            self.pointers().len() == self.order().len(),
            forall|i: int|
                0 <= i < self.order().len() ==> #[trigger] self.pointers()[i]
                    == self@[self.order()[i]],
    {
        assert forall|i: int|
            0 <= i < self.order().len() implies #[trigger] self.pointers()[i]
                == self@[self.order()[i]] by {
            assert(self.entries@[i].key@ == self.order()[i]);
        }
        assert forall|k: Seq<char>| self@.contains_key(k) <==> self.order().contains(k) by {
            if self@.contains_key(k) {
                let i = self.slots@[k] as int;
                assert(self.order()[i] == k);
            }
            if self.order().contains(k) {
                let i = choose|i: int| 0 <= i < self.order().len() && self.order()[i] == k;
                assert(self.entries@[i].key@ == k);
            }
        }
        assert forall|i: int, j: int|
            0 <= i < self.order().len() && 0 <= j < self.order().len() && i != j
            implies self.order()[i] != self.order()[j] by {
            assert(self.entries@[i].key@ == self.order()[i]);
            assert(self.entries@[j].key@ == self.order()[j]);
        }
        self.order().unique_seq_to_set();
        assert(self@.dom() =~= self.order().to_set());
    }

    pub fn new() -> (r: Self)
        ensures
            r.wf(),
            r@ == Map::<Seq<char>, LogPointer>::empty(),
            r.order() == Seq::<Seq<char>>::empty(),
            r.total() == 0,
    {
        let r = KeyDir { slots: StringHashMap::new(), entries: Vec::new() };
        assert(r@ =~= Map::<Seq<char>, LogPointer>::empty());
        assert(r.order() =~= Seq::<Seq<char>>::empty());
        r
    }

    pub fn len(&self) -> (r: usize)
        requires
            self.wf(),
        ensures
            r == self.order().len(),
    {
        self.entries.len()
    }

    pub fn get(&self, key: &str) -> (r: Option<LogPointer>)
        requires
            self.wf(),
        ensures
            r == (if self@.contains_key(key@) {
                Some(self@[key@])
            } else {
                None
            }),
    {
        match self.slots.get(key) {
            Some(i) => Some(self.entries[*i].ptr),
            None => None,
        }
    }

    pub fn contains_key(&self, key: &str) -> (r: bool)
        requires
            self.wf(),
        ensures
            r == self@.contains_key(key@),
    {
        self.slots.contains_key(key)
    }

    /// The pointer of the key at place `i` of the walk order.
    pub fn pointer_at(&self, i: usize) -> (r: LogPointer)
        requires
            self.wf(),
            i < self.order().len(),
        ensures
            r == self@[self.order()[i as int]],
    {
        assert(self.entries@[i as int].key@ == self.order()[i as int]);
        self.entries[i].ptr
    }

    /// Points the key at place `i` of the walk order to `ptr`.
    pub fn set_pointer_at(&mut self, i: usize, ptr: LogPointer)
        requires
            old(self).wf(),
            i < old(self).order().len(),
        ensures
            final(self).wf(),
            final(self).order() == old(self).order(),
            final(self)@ == old(self)@.insert(old(self).order()[i as int], ptr),
            final(self).pointers() == old(self).pointers().update(i as int, ptr),
    {
        let ghost k = self.order()[i as int];
        assert(self.entries@[i as int].key@ == k);
        self.entries[i].ptr = ptr;
        assert(self.order() =~= old(self).order());
        assert(self@ =~= old(self)@.insert(k, ptr));
        assert(self.pointers() =~= old(self).pointers().update(i as int, ptr));
    }

    pub fn insert(&mut self, key: String, ptr: LogPointer)
        requires
            old(self).wf(),
        ensures
            final(self).wf(),
            final(self)@ == old(self)@.insert(key@, ptr),
            final(self).order() == (if old(self)@.contains_key(key@) {
                old(self).order()
            } else {
                old(self).order().push(key@)
            }),
            final(self).total() == old(self).total() + ptr.len - (if old(self)@.contains_key(
                key@,
            ) {
                old(self)@[key@].len as int
            } else {
                0
            }),
    {
        match self.slots.get(key.as_str()) {
            Some(i) => {
                let i = *i;
                self.entries[i].ptr = ptr;
                assert(self.order() =~= old(self).order());
                assert(self@ =~= old(self)@.insert(key@, ptr));
                assert(self.pointers() =~= old(self).pointers().update(i as int, ptr));
                proof {
                    lemma_len_sum_update(old(self).pointers(), i as int, ptr);
                }
            },
            None => {
                let i = self.entries.len();
                let k = key.clone();
                self.entries.push(Entry { key, ptr });
                self.slots.insert(k, i);
                assert(self.order() =~= old(self).order().push(key@));
                assert(self@ =~= old(self)@.insert(key@, ptr));
                assert(self.pointers().drop_last() =~= old(self).pointers());
            },
        }
    }

    pub fn remove(&mut self, key: &str)
        requires
            old(self).wf(),
        ensures
            final(self).wf(),
            final(self)@ == old(self)@.remove(key@),
            !old(self)@.contains_key(key@) ==> final(self).order() == old(self).order(),
            final(self).total() == old(self).total() - (if old(self)@.contains_key(key@) {
                old(self)@[key@].len as int
            } else {
                0
            }),
    {
        match self.slots.get(key) {
            Some(i) => {
                let i = *i;
                let last = self.entries.len() - 1;
                let ghost ps = old(self).pointers();
                self.entries.swap_remove(i);
                assert(self.pointers() =~= ps.update(i as int, ps.last()).drop_last());
                proof {
                    lemma_len_sum_update(ps, i as int, ps.last());
                }
                assert(ps.update(i as int, ps.last()).last() == ps.last());
                if i < last {
                    let moved = self.entries[i].key.clone();
                    self.slots.insert(moved, i);
                }
                self.slots.remove(key);
                assert(self@ =~= old(self)@.remove(key@));
            },
            None => {},
        }
    }
}

} // verus!
