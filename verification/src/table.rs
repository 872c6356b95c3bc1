//! Maps from text to values.
use crate::text::same;
use vstd::prelude::*;

verus! {

/// Where `key` first stands in `keys`; their number where it does not.
spec fn place(keys: Seq<String>, key: Seq<char>) -> nat
    decreases keys.len(),
{
    if keys.len() == 0 {
        0
    } else if keys[0]@ == key {
        0
    } else {
        1 + place(keys.skip(1), key)
    }
}

proof fn lemma_place(keys: Seq<String>, key: Seq<char>)
    ensures
        place(keys, key) <= keys.len(),
        place(keys, key) < keys.len() ==> keys[place(keys, key) as int]@ == key,
        forall|i: int| 0 <= i < place(keys, key) ==> #[trigger] keys[i]@ != key,
    decreases keys.len(),
{
    if keys.len() > 0 && keys[0]@ != key {
        lemma_place(keys.skip(1), key);
        let rest = keys.skip(1);
        assert forall|i: int| 0 <= i < place(keys, key) implies #[trigger] keys[i]@ != key by {
            if i > 0 {
                assert(rest[i - 1] == keys[i]);
            }
        }
    }
}

proof fn lemma_place_is(keys: Seq<String>, key: Seq<char>, i: nat)
    requires
        i < keys.len(),
        keys[i as int]@ == key,
        distinct(keys),
    ensures
        place(keys, key) == i,
{
    lemma_place(keys, key);
    let p = place(keys, key);
    if p < i {
        assert(keys[p as int]@ == keys[i as int]@);
    } else if i < p {
        assert(keys[i as int]@ != key);
    }
}

/// Whether no text stands in `keys` twice.
spec fn distinct(keys: Seq<String>) -> bool {
    forall|i: int, j: int|
        0 <= i < j < keys.len() ==> #[trigger] keys[i]@ != #[trigger] keys[j]@
}

/// The texts of `s`.
pub open spec fn texts(s: Seq<String>) -> Seq<Seq<char>> {
    Seq::new(s.len(), |i: int| s[i]@)
}

/// Whether `s` lists the members of `d`, each once.
pub open spec fn enumerates(s: Seq<Seq<char>>, d: Set<Seq<char>>) -> bool {
    s.no_duplicates() && s.to_set() == d
}

/// A map from text to values. Its keys are listed in no promised order.
#[derive(Debug)]
pub struct Table<V> {
    keys: Vec<String>,
    vals: Vec<V>,
}

impl<V: View> View for Table<V> {
    type V = Map<Seq<char>, V::V>;

    closed spec fn view(&self) -> Map<Seq<char>, V::V> {
        Map::new(
            |k: Seq<char>| place(self.keys@, k) < self.keys@.len(),
            |k: Seq<char>| self.vals@[place(self.keys@, k) as int]@,
        )
    }
}

impl<V> Table<V> {
    #[verifier::type_invariant]
    spec fn sound(self) -> bool {
        self.keys@.len() == self.vals@.len() && distinct(self.keys@)
    }
}

impl<V: View> Table<V> {
    /// The empty map.
    pub fn new() -> (t: Table<V>)
        ensures
            t@ == Map::<Seq<char>, V::V>::empty(),
    {
        let t: Table<V> = Table { keys: Vec::new(), vals: Vec::new() };
        assert(t@ =~= Map::<Seq<char>, V::V>::empty());
        t
    }

    fn find(&self, key: &str) -> (i: usize)
        ensures
            i == place(self.keys@, key@),
            i <= self.keys@.len(),
    {
        let mut i: usize = 0;
        assert(self.keys@.skip(0) =~= self.keys@);
        while i < self.keys.len()
            invariant
                i <= self.keys@.len(),
                place(self.keys@, key@) == i + place(self.keys@.skip(i as int), key@),
            decreases self.keys@.len() - i,
        {
            let ghost rest = self.keys@.skip(i as int);
            assert(rest.skip(1) =~= self.keys@.skip(i as int + 1));
            if same(self.keys[i].as_str(), key) {
                return i;
            }
            i = i + 1;
        }
        i
    }

    /// Whether `key` has a value.
    pub fn contains_key(&self, key: &str) -> (r: bool)
        ensures
            r == self@.contains_key(key@),
    {
        self.find(key) < self.keys.len()
    }

    /// The value of `key`.
    pub fn get(&self, key: &str) -> (r: Option<&V>)
        ensures
            match r {
                Some(v) => self@.contains_key(key@) && v@ == self@[key@],
                None => !self@.contains_key(key@),
            },
    {
        proof {
            use_type_invariant(self);
        }
        let i: usize = self.find(key);
        if i < self.keys.len() {
            Some(&self.vals[i])
        } else {
            None
        }
    }

    /// Take `key` and its value out.
    pub fn remove(&mut self, key: &str) -> (r: Option<V>)
        ensures
            final(self)@ == old(self)@.remove(key@),
            match r {
                Some(v) => old(self)@.contains_key(key@) && v@ == old(self)@[key@],
                None => !old(self)@.contains_key(key@),
            },
    {
        proof {
            use_type_invariant(&*self);
        }
        let i: usize = self.find(key);
        if i == self.keys.len() {
            assert(self@.remove(key@) =~= self@);
            return None;
        }
        let ghost before = *self;
        let mut fresh: Table<V> = Table { keys: Vec::new(), vals: Vec::new() };
        std::mem::swap(self, &mut fresh);
        let Table { keys: mut ks, vals: mut vs } = fresh;
        let _ = ks.remove(i);
        let v: V = vs.remove(i);
        proof {
            assert forall|a: int, b: int| 0 <= a < b < ks@.len() implies #[trigger] ks@[a]@
                != #[trigger] ks@[b]@ by {
                let x = if a < i {
                    a
                } else {
                    a + 1
                };
                let y = if b < i {
                    b
                } else {
                    b + 1
                };
                assert(before.keys@[x]@ != before.keys@[y]@);
            }
        }
        *self = Table { keys: ks, vals: vs };
        proof {
            lemma_place(before.keys@, key@);
            lemma_without(before, *self, i as nat, key@);
        }
        Some(v)
    }

    /// Give `key` the value `val`, in place of any that it had.
    pub fn insert(&mut self, key: String, val: V)
        ensures
            final(self)@ == old(self)@.insert(key@, val@),
    {
        let ghost start = self@;
        let _ = self.remove(key.as_str());
        proof {
            use_type_invariant(&*self);
        }
        let ghost before = *self;
        let mut fresh: Table<V> = Table { keys: Vec::new(), vals: Vec::new() };
        std::mem::swap(self, &mut fresh);
        let Table { keys: mut ks, vals: mut vs } = fresh;
        let ghost name = key@;
        let ghost item = val@;
        ks.push(key);
        vs.push(val);
        proof {
            lemma_place(before.keys@, name);
            assert(!before@.contains_key(name));
            assert forall|a: int, b: int| 0 <= a < b < ks@.len() implies #[trigger] ks@[a]@
                != #[trigger] ks@[b]@ by {
                if b < before.keys@.len() {
                    assert(before.keys@[a]@ != before.keys@[b]@);
                } else {
                    assert(before.keys@[a]@ != name);
                }
            }
        }
        *self = Table { keys: ks, vals: vs };
        proof {
            assert(ks@.drop_last() =~= before.keys@);
            assert(vs@.drop_last() =~= before.vals@);
            lemma_with(before, *self, name, item);
            assert(start.remove(name).insert(name, item) =~= start.insert(name, item));
        }
    }

    /// Take everything out.
    pub fn clear(&mut self)
        ensures
            final(self)@ == Map::<Seq<char>, V::V>::empty(),
    {
        *self = Table::new();
    }

    /// The keys, each once.
    pub fn keys(&self) -> (v: Vec<String>)
        ensures
            enumerates(texts(v@), self@.dom()),
    {
        let mut v: Vec<String> = Vec::new();
        let mut i: usize = 0;
        while i < self.keys.len()
            invariant
                i <= self.keys@.len(),
                v@ =~= self.keys@.take(i as int),
            decreases self.keys@.len() - i,
        {
            v.push(self.keys[i].clone());
            i = i + 1;
        }
        assert(v@ =~= self.keys@);
        proof {
            use_type_invariant(self);
            lemma_keys_enumerate(*self);
        }
        v
    }

    /// How many keys there are.
    pub fn len(&self) -> (n: usize)
        ensures
            n == self@.len(),
            self@.dom().finite(),
    {
        proof {
            use_type_invariant(self);
            lemma_keys_enumerate(*self);
            texts(self.keys@).unique_seq_to_set();
        }
        self.keys.len()
    }
}

proof fn lemma_without<V: View>(t: Table<V>, u: Table<V>, i: nat, key: Seq<char>)
    requires
        t.sound(),
        u.sound(),
        i < t.keys@.len(),
        t.keys@[i as int]@ == key,
        u.keys@ == t.keys@.remove(i as int),
        u.vals@ == t.vals@.remove(i as int),
    ensures
        u@ == t@.remove(key),
{
    let ks = t.keys@;
    let ls = u.keys@;
    lemma_place_is(ks, key, i);
    assert forall|k: Seq<char>|
        #![trigger place(ls, k)]
        {
            &&& place(ls, k) < ls.len() <==> (place(ks, k) < ks.len() && k != key)
            &&& place(ls, k) < ls.len() ==> u.vals@[place(ls, k) as int]
                == t.vals@[place(ks, k) as int]
        } by {
        lemma_place(ks, k);
        lemma_place(ls, k);
        let p = place(ks, k);
        let q = place(ls, k);
        if p < ks.len() && k != key {
            if p < i {
                assert(ls[p as int]@ == k);
                lemma_place_is(ls, k, p);
            } else {
                assert(ls[p - 1]@ == k);
                lemma_place_is(ls, k, (p - 1) as nat);
            }
        } else if q < ls.len() {
            let x = if q < i {
                q as int
            } else {
                q as int + 1
            };
            assert(ks[x]@ == k);
            lemma_place_is(ks, k, x as nat);
        }
    }
    assert(u@ =~= t@.remove(key)) by {
        assert forall|k: Seq<char>|
            u@.dom().contains(k) == #[trigger] t@.remove(key).dom().contains(k) by {
            assert(place(ls, k) == place(ls, k));
        }
        assert forall|k: Seq<char>| #[trigger] u@.dom().contains(k) implies u@[k] == t@.remove(
            key,
        )[k] by {
            assert(place(ls, k) < ls.len());
        }
    }
}

proof fn lemma_with<V: View>(t: Table<V>, u: Table<V>, key: Seq<char>, val: V::V)
    requires
        t.sound(),
        u.sound(),
        !t@.contains_key(key),
        u.keys@.len() == t.keys@.len() + 1,
        u.keys@.drop_last() == t.keys@,
        u.keys@.last()@ == key,
        u.vals@.drop_last() == t.vals@,
        u.vals@.last()@ == val,
    ensures
        u@ == t@.insert(key, val),
{
    let ks = t.keys@;
    let ls = u.keys@;
    let n = ks.len();
    assert(forall|i: int| 0 <= i < n ==> #[trigger] ls[i] == ks[i]) by {
        assert forall|i: int| 0 <= i < n implies #[trigger] ls[i] == ks[i] by {
            assert(ls.drop_last()[i] == ls[i]);
        }
    }
    assert(forall|i: int| 0 <= i < n ==> #[trigger] u.vals@[i] == t.vals@[i]) by {
        assert forall|i: int| 0 <= i < n implies #[trigger] u.vals@[i] == t.vals@[i] by {
            assert(u.vals@.drop_last()[i] == u.vals@[i]);
        }
    }
    lemma_place_is(ls, key, n);
    assert forall|k: Seq<char>|
        #![trigger place(ls, k)]
        k != key implies {
            &&& place(ls, k) < ls.len() <==> place(ks, k) < ks.len()
            &&& place(ls, k) < ls.len() ==> place(ls, k) == place(ks, k)
        } by {
        lemma_place(ks, k);
        lemma_place(ls, k);
        let p = place(ks, k);
        let q = place(ls, k);
        if p < n {
            assert(ls[p as int]@ == k);
            lemma_place_is(ls, k, p);
        } else if q < ls.len() {
            assert(q < n);
            lemma_place_is(ks, k, q);
        }
    }
    assert(u@ =~= t@.insert(key, val)) by {
        assert forall|k: Seq<char>|
            u@.dom().contains(k) == #[trigger] t@.insert(key, val).dom().contains(k) by {
            assert(place(ls, k) == place(ls, k));
        }
        assert forall|k: Seq<char>| #[trigger] u@.dom().contains(k) implies u@[k] == t@.insert(
            key,
            val,
        )[k] by {
            assert(place(ls, k) < ls.len());
        }
    }
}

proof fn lemma_keys_enumerate<V: View>(t: Table<V>)
    requires
        t.sound(),
    ensures
        enumerates(texts(t.keys@), t@.dom()),
{
    let s = texts(t.keys@);
    assert(s.no_duplicates()) by {
        assert forall|i: int, j: int| 0 <= i < s.len() && 0 <= j < s.len() && i != j implies s[i]
            != s[j] by {
            if i < j {
                assert(t.keys@[i]@ != t.keys@[j]@);
            } else {
                assert(t.keys@[j]@ != t.keys@[i]@);
            }
        }
    }
    assert forall|k: Seq<char>| s.to_set().contains(k) <==> t@.dom().contains(k) by {
        lemma_place(t.keys@, k);
        if t@.dom().contains(k) {
            assert(s[place(t.keys@, k) as int] == k);
        }
        if s.contains(k) {
            let i = choose|i: int| 0 <= i < s.len() && s[i] == k;
            lemma_place_is(t.keys@, k, i as nat);
        }
    }
    assert(s.to_set() =~= t@.dom());
}

} // verus!
