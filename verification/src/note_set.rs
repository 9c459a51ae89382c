//! Sets of note keys.
use crate::text::{copy_of, same_text};
use vstd::prelude::*;

verus! {

/// A set of note keys. No key stands in it twice.
#[derive(Debug)]
pub struct NoteSet {
    keys: Vec<String>,
}

/// The texts that the strings hold.
pub open spec fn texts(keys: Seq<String>) -> Seq<Seq<char>> {
    keys.map_values(|k: String| k@)
}

impl View for NoteSet {
    type V = Set<Seq<char>>;

    closed spec fn view(&self) -> Set<Seq<char>> {
        texts(self.keys@).to_set()
    }
}

impl NoteSet {
    /// No key stands in the list twice.
    #[verifier::type_invariant]
    spec fn distinct(self) -> bool {
        texts(self.keys@).no_duplicates()
    }

    /// The empty set.
    pub fn new() -> (s: NoteSet)
        ensures
            s@ == Set::<Seq<char>>::empty(),
    {
        let s = NoteSet { keys: Vec::new() };
        assert(s@ =~= Set::<Seq<char>>::empty());
        s
    }

    /// How many keys the set holds.
    pub fn len(&self) -> (n: usize)
        ensures
            self@.finite(),
            n == self@.len(),
    {
        proof {
            use_type_invariant(self);
            texts(self.keys@).unique_seq_to_set();
            vstd::seq_lib::seq_to_set_is_finite(texts(self.keys@));
        }
        self.keys.len()
    }

    /// Where the key stands in the list.
    fn position(&self, key: &str) -> (p: Option<usize>)
        ensures
            match p {
                Some(i) => i < self.keys@.len() && self.keys@[i as int]@ == key@ && self@.contains(
                    key@,
                ),
                None => !self@.contains(key@),
            },
    {
        let mut i: usize = 0;
        while i < self.keys.len()
            invariant
                i <= self.keys@.len(),
                forall|j: int| 0 <= j < i ==> self.keys@[j]@ != key@,
            decreases self.keys@.len() - i,
        {
            if same_text(self.keys[i].as_str(), key) {
                assert(texts(self.keys@)[i as int] == key@);
                return Some(i);
            }
            i += 1;
        }
        assert forall|j: int| 0 <= j < texts(self.keys@).len() implies texts(self.keys@)[j]
            != key@ by {
            assert(texts(self.keys@)[j] == self.keys@[j]@);
        }
        None
    }

    /// Whether the set holds the key.
    pub fn contains(&self, key: &str) -> (r: bool)
        ensures
            r == self@.contains(key@),
    {
        match self.position(key) {
            Some(_) => true,
            None => false,
        }
    }

    /// Puts the key into the set. The result says whether it was not there before.
    pub fn insert(&mut self, key: &str) -> (added: bool)
        ensures
            final(self)@ == old(self)@.insert(key@),
            added == !old(self)@.contains(key@),
    {
        if self.contains(key) {
            assert(self@.insert(key@) =~= self@);
            return false;
        }
        proof {
            use_type_invariant(&*self);
        }
        let mut keys: Vec<String> = Vec::new();
        std::mem::swap(&mut keys, &mut self.keys);
        let ghost before = texts(keys@);
        keys.push(copy_of(key));
        proof {
            assert(texts(keys@) =~= before.push(key@));
            before.lemma_push_to_set_commute(key@);
            assert(!before.contains(key@));
            assert(before.push(key@).no_duplicates());
        }
        self.keys = keys;
        true
    }

    /// Takes the key out of the set. The result says whether it was there.
    pub fn remove(&mut self, key: &str) -> (removed: bool)
        ensures
            final(self)@ == old(self)@.remove(key@),
            removed == old(self)@.contains(key@),
    {
        match self.position(key) {
            None => {
                assert(self@.remove(key@) =~= self@);
                false
            },
            Some(i) => {
                proof {
                    use_type_invariant(&*self);
                }
                let mut keys: Vec<String> = Vec::new();
                std::mem::swap(&mut keys, &mut self.keys);
                let ghost before = texts(keys@);
                let _ = keys.remove(i);
                proof {
                    let after = texts(keys@);
                    assert(after =~= before.remove(i as int));
                    assert(before[i as int] == key@);
                    assert(before.remove(i as int).no_duplicates());
                    assert forall|k: Seq<char>| #[trigger]
                        after.to_set().contains(k) <==> before.to_set().remove(key@).contains(
                        k,
                    ) by {
                        if after.contains(k) {
                            let j = choose|j: int| 0 <= j < after.len() && after[j] == k;
                            let j0 = if j < i {
                                j
                            } else {
                                j + 1
                            };
                            assert(before[j0] == k);
                        }
                        if before.contains(k) && k != key@ {
                            let j0 = choose|j: int| 0 <= j < before.len() && before[j] == k;
                            let j = if j0 < i {
                                j0
                            } else {
                                j0 - 1
                            };
                            assert(after[j] == k);
                        }
                    }
                    assert(after.to_set() =~= before.to_set().remove(key@));
                }
                self.keys = keys;
                true
            },
        }
    }

    /// Another set with the same keys.
    pub fn copy(&self) -> (s: NoteSet)
        ensures
            s@ == self@,
    {
        let mut s = NoteSet::new();
        s.extend(self);
        assert(s@ =~= self@);
        s
    }

    /// Puts every key of `other` into the set.
    pub fn extend(&mut self, other: &NoteSet)
        ensures
            final(self)@ == old(self)@.union(other@),
    {
        let ghost start = self@;
        let mut i: usize = 0;
        assert(texts(other.keys@).take(0).to_set() =~= Set::<Seq<char>>::empty());
        assert(self@ =~= start.union(texts(other.keys@).take(0).to_set()));
        while i < other.keys.len()
            invariant
                i <= other.keys@.len(),
                self@ == start.union(texts(other.keys@).take(i as int).to_set()),
            decreases other.keys@.len() - i,
        {
            let _ = self.insert(other.keys[i].as_str());
            proof {
                let all = texts(other.keys@);
                assert(all.take(i + 1) =~= all.take(i as int).push(all[i as int]));
                all.take(i as int).lemma_push_to_set_commute(all[i as int]);
                assert(self@ =~= start.union(all.take(i + 1).to_set()));
            }
            i += 1;
        }
        assert(texts(other.keys@).take(i as int) =~= texts(other.keys@));
    }

    /// Whether every key of this set is in `other`.
    fn within(&self, other: &NoteSet) -> (r: bool)
        ensures
            r == self@.subset_of(other@),
    {
        let mut i: usize = 0;
        while i < self.keys.len()
            invariant
                i <= self.keys@.len(),
                forall|j: int| 0 <= j < i ==> other@.contains(texts(self.keys@)[j]),
            decreases self.keys@.len() - i,
        {
            if !other.contains(self.keys[i].as_str()) {
                assert(texts(self.keys@)[i as int] == self.keys@[i as int]@);
                assert(self@.contains(self.keys@[i as int]@));
                return false;
            }
            i += 1;
        }
        true
    }

    /// Whether the two sets hold the same keys.
    pub fn same_keys(&self, other: &NoteSet) -> (r: bool)
        ensures
            r == (self@ == other@),
    {
        let r = self.within(other) && other.within(self);
        assert(r ==> self@ =~= other@);
        r
    }
}

impl PartialEq for NoteSet {
    fn eq(&self, other: &NoteSet) -> (r: bool) {
        self.same_keys(other)
    }
}

impl vstd::std_specs::cmp::PartialEqSpecImpl for NoteSet {
    open spec fn obeys_eq_spec() -> bool {
        true
    }

    open spec fn eq_spec(&self, other: &NoteSet) -> bool {
        self@ == other@
    }
}

} // verus!
