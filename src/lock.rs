use vstd::prelude::*;

verus! {

/// The set of distinct names held in a sequence of strings.
pub open spec fn names(v: Seq<String>) -> Set<Seq<char>> {
    Set::new(|k: Seq<char>| exists|i: int| 0 <= i < v.len() && #[trigger] v[i]@ == k)
}

/// Whether some element of `v` equals `key`.
pub fn contains_key(v: &Vec<String>, key: &String) -> (r: bool)
    ensures
        r == names(v@).contains(key@),
{
    let mut i: usize = 0;
    while i < v.len()
        invariant
            0 <= i <= v.len(),
            forall|j: int| 0 <= j < i ==> (#[trigger] v@[j])@ != key@,
        decreases v.len() - i,
    {
        if v[i] == *key {
            assert(v@[i as int]@ == key@);
            return true;
        }
        i = i + 1;
    }
    false
}

/// Advisory, process-local resource locks, each named by a key.
///
/// A batch of keys is granted all at once or not at all.
pub struct LockManager {
    held: Vec<String>,
}

impl View for LockManager {
    type V = Set<Seq<char>>;

    closed spec fn view(&self) -> Set<Seq<char>> {
        names(self.held@)
    }
}

impl LockManager {
    /// A lock manager that holds no key.
    pub fn new() -> (r: Self)
        ensures
            r@ == Set::<Seq<char>>::empty(),
    {
        let r = LockManager { held: Vec::new() };
        assert(r@ =~= Set::<Seq<char>>::empty());
        r
    }

    /// Whether `key` is currently held.
    pub fn is_held(&self, key: &String) -> (r: bool)
        ensures
            r == self@.contains(key@),
    {
        contains_key(&self.held, key)
    }

    /// Grants every key of `keys` if none of them is held; otherwise grants
    /// none and returns the contended keys.
    pub fn try_acquire(&mut self, keys: &Vec<String>) -> (r: Result<(), Vec<String>>)
        ensures
            r is Ok <==> names(keys@).disjoint(old(self)@),
            r is Ok ==> final(self)@ == old(self)@.union(names(keys@)),
            r is Err ==> final(self)@ == old(self)@,
            r is Err ==> names(r->Err_0@) == names(keys@).intersect(old(self)@),
    {
        let mut contended: Vec<String> = Vec::new();
        proof {
            lemma_names_empty(contended@);
            lemma_names_empty(keys@.take(0int));
        }
        let mut i: usize = 0;
        while i < keys.len()
            invariant
                0 <= i <= keys.len(),
                names(contended@) == names(keys@.take(i as int)).intersect(self@),
            decreases keys.len() - i,
        {
            let k = &keys[i];
            let held = contains_key(&self.held, k);
            proof {
                assert(keys@.take(i as int + 1) == keys@.take(i as int).push(keys@[i as int]));
                lemma_names_push(keys@.take(i as int), keys@[i as int]);
                lemma_names_push(contended@, *k);
            }
            if held {
                contended.push(k.clone());
            }
            assert(names(contended@) =~= names(keys@.take(i as int + 1)).intersect(self@));
            i = i + 1;
        }
        assert(keys@.take(keys.len() as int) =~= keys@);
        if contended.len() == 0 {
            proof {
                lemma_names_empty(contended@);
            }
            assert(names(keys@).disjoint(self@)) by {
                assert forall|k: Seq<char>| names(keys@).contains(k) implies !self@.contains(k) by {
                    if self@.contains(k) {
                        assert(names(contended@).contains(k));
                    }
                };
            };
            let ghost before = self@;
            proof {
                lemma_names_empty(keys@.take(0int));
            }
            let mut j: usize = 0;
            while j < keys.len()
                invariant
                    0 <= j <= keys.len(),
                    self@ == before.union(names(keys@.take(j as int))),
                decreases keys.len() - j,
            {
                proof {
                    assert(keys@.take(j as int + 1) == keys@.take(j as int).push(keys@[j as int]));
                    lemma_names_push(keys@.take(j as int), keys@[j as int]);
                    lemma_names_push(self.held@, keys@[j as int]);
                }
                self.held.push(keys[j].clone());
                assert(self@ =~= before.union(names(keys@.take(j as int + 1))));
                j = j + 1;
            }
            Ok(())
        } else {
            assert(!names(keys@).disjoint(self@)) by {
                assert(names(contended@).contains(contended@[0]@));
            };
            Err(contended)
        }
    }

    /// Releases every key of `keys`; a key that is not held is ignored.
    pub fn release(&mut self, keys: &Vec<String>)
        ensures
            final(self)@ == old(self)@.difference(names(keys@)),
    {
        let mut kept: Vec<String> = Vec::new();
        proof {
            lemma_names_empty(kept@);
            lemma_names_empty(self.held@.take(0int));
        }
        let mut i: usize = 0;
        while i < self.held.len()
            invariant
                0 <= i <= self.held.len(),
                names(kept@) == names(self.held@.take(i as int)).difference(names(keys@)),
            decreases self.held.len() - i,
        {
            let k = &self.held[i];
            let released = contains_key(keys, k);
            proof {
                assert(self.held@.take(i as int + 1) == self.held@.take(i as int).push(self.held@[i as int]));
                lemma_names_push(self.held@.take(i as int), self.held@[i as int]);
                lemma_names_push(kept@, *k);
            }
            if !released {
                kept.push(k.clone());
            }
            assert(names(kept@) =~= names(self.held@.take(i as int + 1)).difference(names(keys@)));
            i = i + 1;
        }
        assert(self.held@.take(self.held.len() as int) =~= self.held@);
        self.held = kept;
    }
}

/// No name is held in an empty sequence.
pub proof fn lemma_names_empty(v: Seq<String>)
    requires
        v.len() == 0,
    ensures
        names(v) == Set::<Seq<char>>::empty(),
{
    assert(names(v) =~= Set::<Seq<char>>::empty());
}

/// Appending a string adds exactly its name.
pub proof fn lemma_names_push(v: Seq<String>, x: String)
    ensures
        names(v.push(x)) == names(v).insert(x@),
{
    assert forall|k: Seq<char>| names(v.push(x)).contains(k) <==> names(v).insert(x@).contains(k) by {
        if names(v).contains(k) {
            let j = choose|j: int| 0 <= j < v.len() && #[trigger] v[j]@ == k;
            assert(v.push(x)[j]@ == k);
        }
        if k == x@ {
            assert(v.push(x)[v.len() as int]@ == k);
        }
        if names(v.push(x)).contains(k) {
            let j = choose|j: int| 0 <= j < v.len() + 1 && #[trigger] v.push(x)[j]@ == k;
            if j < v.len() {
                assert(v[j]@ == k);
            }
        }
    };
    assert(names(v.push(x)) =~= names(v).insert(x@));
}

} // verus!
