//! A small set of key codes that remembers the order keys were added in.
use vstd::prelude::*;

verus! {

/// `s` with `k` added at the end, unless it is already there.
pub open spec fn with_key(s: Seq<u16>, k: u16) -> Seq<u16> {
    if s.contains(k) {
        s
    } else {
        s.push(k)
    }
}

/// `s` without `k`, the other keys in their order.
pub open spec fn without_key(s: Seq<u16>, k: u16) -> Seq<u16>
    decreases s.len(),
{
    if s.len() == 0 {
        s
    } else if s.last() == k {
        without_key(s.drop_last(), k)
    } else {
        without_key(s.drop_last(), k).push(s.last())
    }
}

/// Membership after adding a key.
pub proof fn lemma_with_key(s: Seq<u16>, k: u16)
    requires
        s.no_duplicates(),
    ensures
        with_key(s, k).no_duplicates(),
        forall|x: u16| #[trigger] with_key(s, k).contains(x) <==> (s.contains(x) || x == k),
{
    if !s.contains(k) {
        let t = s.push(k);
        assert forall|x: u16| #[trigger] t.contains(x) <==> (s.contains(x) || x == k) by {
            if t.contains(x) {
                let i = choose|i: int| 0 <= i < t.len() && t[i] == x;
                if i < s.len() {
                    assert(s[i] == x);
                }
            }
            if s.contains(x) {
                let i = choose|i: int| 0 <= i < s.len() && s[i] == x;
                assert(t[i] == x);
            }
            if x == k {
                assert(t[s.len() as int] == k);
            }
        }
        assert forall|i: int, j: int| 0 <= i < t.len() && 0 <= j < t.len() && i != j implies t[i]
            != t[j] by {
            if i < s.len() && j < s.len() {
            } else if i < s.len() {
                assert(t[j] == k);
                assert(t[i] == s[i]);
            } else {
                assert(t[i] == k);
                assert(t[j] == s[j]);
            }
        }
    }
}

/// Membership after removing a key.
pub proof fn lemma_without_key(s: Seq<u16>, k: u16)
    requires
        s.no_duplicates(),
    ensures
        without_key(s, k).no_duplicates(),
        forall|x: u16| #[trigger] without_key(s, k).contains(x) <==> (s.contains(x) && x != k),
        without_key(s, k).len() <= s.len(),
        !s.contains(k) ==> without_key(s, k) == s,
    decreases s.len(),
{
    if s.len() > 0 {
        let r = s.drop_last();
        assert(r.no_duplicates());
        lemma_without_key(r, k);
        let w = without_key(r, k);
        assert forall|x: u16| s.contains(x) <==> (r.contains(x) || x == s.last()) by {
            if s.contains(x) {
                let i = choose|i: int| 0 <= i < s.len() && s[i] == x;
                if i < r.len() {
                    assert(r[i] == x);
                }
            }
            if r.contains(x) {
                let i = choose|i: int| 0 <= i < r.len() && r[i] == x;
                assert(s[i] == x);
            }
        }
        assert(!r.contains(s.last())) by {
            if r.contains(s.last()) {
                let i = choose|i: int| 0 <= i < r.len() && r[i] == s.last();
                assert(s[i] == s[s.len() - 1]);
            }
        }
        if s.last() != k {
            let t = w.push(s.last());
            assert forall|x: u16| #[trigger] t.contains(x) <==> (w.contains(x) || x == s.last()) by {
                if t.contains(x) {
                    let i = choose|i: int| 0 <= i < t.len() && t[i] == x;
                    if i < w.len() {
                        assert(w[i] == x);
                    }
                }
                if w.contains(x) {
                    let i = choose|i: int| 0 <= i < w.len() && w[i] == x;
                    assert(t[i] == x);
                }
                if x == s.last() {
                    assert(t[w.len() as int] == x);
                }
            }
            assert forall|i: int, j: int|
                0 <= i < t.len() && 0 <= j < t.len() && i != j implies t[i] != t[j] by {
                if i < w.len() && j < w.len() {
                } else if i < w.len() {
                    assert(w.contains(t[i]));
                } else {
                    assert(w.contains(t[j]));
                }
            }
            if !s.contains(k) {
                assert(s =~= r.push(s.last()));
            }
        }
    } else {
        assert(!s.contains(k));
    }
}

/// Key codes without repetition, in the order they were added.
#[derive(Debug)]
pub struct KeySet {
    keys: Vec<u16>,
}

impl View for KeySet {
    type V = Seq<u16>;

    closed spec fn view(&self) -> Seq<u16> {
        self.keys@
    }
}

impl KeySet {
    /// The empty set.
    pub fn new() -> (res: Self)
        ensures
            res@ == Seq::<u16>::empty(),
    {
        KeySet { keys: Vec::new() }
    }

    /// Whether `k` is in the set.
    pub fn contains(&self, k: u16) -> (res: bool)
        ensures
            res == self@.contains(k),
    {
        let mut i: usize = 0;
        while i < self.keys.len()
            invariant
                i <= self@.len(),
                forall|j: int| 0 <= j < i ==> self@[j] != k,
            decreases self@.len() - i,
        {
            if self.keys[i] == k {
                return true;
            }
            i = i + 1;
        }
        false
    }

    /// Whether the set is empty.
    pub fn is_empty(&self) -> (res: bool)
        ensures
            res == (self@.len() == 0),
    {
        self.keys.len() == 0
    }

    /// Adds `k`.
    pub fn insert(&mut self, k: u16)
        ensures
            final(self)@ == with_key(old(self)@, k),
    {
        if !self.contains(k) {
            self.keys.push(k);
        }
    }

    /// Removes `k`; tells whether it was there.
    pub fn remove(&mut self, k: u16) -> (res: bool)
        ensures
            final(self)@ == without_key(old(self)@, k),
            res == old(self)@.contains(k),
    {
        let mut kept: Vec<u16> = Vec::new();
        let mut found = false;
        let mut i: usize = 0;
        let n: usize = self.keys.len();
        while i < n
            invariant
                n == self@.len(),
                i <= n,
                kept@ == without_key(self@.subrange(0, i as int), k),
                found == self@.subrange(0, i as int).contains(k),
            decreases n - i,
        {
            let x: u16 = self.keys[i];
            proof {
                let p = self@.subrange(0, i + 1);
                assert(p.drop_last() =~= self@.subrange(0, i as int));
                assert(p.last() == x);
                assert(p.contains(k) <==> (self@.subrange(0, i as int).contains(k) || x == k)) by {
                    if p.contains(k) {
                        let j = choose|j: int| 0 <= j < p.len() && p[j] == k;
                        if j < i {
                            assert(self@.subrange(0, i as int)[j] == k);
                        }
                    }
                    if self@.subrange(0, i as int).contains(k) {
                        let j = choose|j: int|
                            0 <= j < i && self@.subrange(0, i as int)[j] == k;
                        assert(p[j] == k);
                    }
                    if x == k {
                        assert(p[i as int] == k);
                    }
                }
            }
            if x == k {
                found = true;
            } else {
                kept.push(x);
            }
            i = i + 1;
        }
        proof {
            assert(self@.subrange(0, n as int) =~= self@);
        }
        self.keys = kept;
        found
    }

    /// Empties the set.
    pub fn clear(&mut self)
        ensures
            final(self)@ == Seq::<u16>::empty(),
    {
        self.keys.clear();
    }

    /// Empties the set and gives back its keys in order.
    pub fn drain(&mut self) -> (res: Vec<u16>)
        ensures
            res@ == old(self)@,
            final(self)@ == Seq::<u16>::empty(),
    {
        let mut taken: Vec<u16> = Vec::new();
        std::mem::swap(&mut taken, &mut self.keys);
        taken
    }

    /// The key at position `i`.
    pub fn get(&self, i: usize) -> (res: u16)
        requires
            i < self@.len(),
        ensures
            res == self@[i as int],
    {
        self.keys[i]
    }

    /// The number of keys.
    pub fn len(&self) -> (res: usize)
        ensures
            res == self@.len(),
    {
        self.keys.len()
    }
}

} // verus!
