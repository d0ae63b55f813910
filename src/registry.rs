//! A map from string ids to values, kept as two parallel vectors.
//!
//! It stands where a `HashMap<String, _>` would: what a string-keyed hash
//! map holds after an insert cannot be proved here, while the two vectors,
//! with ids kept unique, are viewed exactly as a `Map`. Looking an id up
//! walks the ids, which suits the few providers and transactions that one
//! engine tracks at a time.
use vstd::prelude::*;

verus! {

/// No two keys have the same text.
pub open spec fn keys_unique(keys: Seq<String>) -> bool {
    forall|i: int, j: int| 0 <= i < keys.len() && 0 <= j < keys.len() && i != j ==> keys[i]@ != keys[j]@
}

/// Some key has text `id`.
pub open spec fn has_key(keys: Seq<String>, id: Seq<char>) -> bool {
    exists|i: int| 0 <= i < keys.len() && keys[i]@ == id
}

/// The value stored beside each key.
pub open spec fn pair_map<V>(keys: Seq<String>, values: Seq<V>) -> Map<Seq<char>, V> {
    Map::new(
        |id: Seq<char>| has_key(keys, id),
        |id: Seq<char>| values[choose|i: int| 0 <= i < keys.len() && keys[i]@ == id],
    )
}

proof fn lemma_lookup<V>(keys: Seq<String>, values: Seq<V>, i: int)
    requires
        keys_unique(keys),
        0 <= i < keys.len(),
    ensures
        pair_map(keys, values).contains_key(keys[i]@),
        pair_map(keys, values)[keys[i]@] == values[i],
{
    let id = keys[i]@;
    assert(has_key(keys, id));
    let j = choose|j: int| 0 <= j < keys.len() && keys[j]@ == id;
    assert(j == i);
}

proof fn lemma_push<V>(keys: Seq<String>, values: Seq<V>, k: String, v: V)
    requires
        keys_unique(keys),
        keys.len() == values.len(),
        !has_key(keys, k@),
    ensures
        keys_unique(keys.push(k)),
        pair_map(keys.push(k), values.push(v)) == pair_map(keys, values).insert(k@, v),
{
    let ks = keys.push(k);
    let vs = values.push(v);
    assert forall|a: int, b: int| 0 <= a < ks.len() && 0 <= b < ks.len() && a != b implies ks[a]@ != ks[b]@ by {
        if a == keys.len() {
            assert(ks[b] == keys[b]);
        } else if b == keys.len() {
            assert(ks[a] == keys[a]);
        } else {
            assert(ks[a] == keys[a] && ks[b] == keys[b]);
        }
    }
    let m = pair_map(keys, values).insert(k@, v);
    assert forall|id: Seq<char>| #[trigger] pair_map(ks, vs).contains_key(id) == m.contains_key(id) by {
        if has_key(ks, id) && id != k@ {
            let j = choose|j: int| 0 <= j < ks.len() && ks[j]@ == id;
            assert(ks[j] == keys[j]);
            assert(has_key(keys, id));
        }
        if has_key(keys, id) {
            let j = choose|j: int| 0 <= j < keys.len() && keys[j]@ == id;
            assert(ks[j] == keys[j]);
            assert(has_key(ks, id));
        }
        if id == k@ {
            assert(ks[keys.len() as int] == k);
            assert(has_key(ks, id));
        }
    }
    assert forall|id: Seq<char>| #[trigger] pair_map(ks, vs).contains_key(id) implies pair_map(ks, vs)[id]
        == m[id] by {
        if id == k@ {
            assert(ks[keys.len() as int] == k);
            lemma_lookup(ks, vs, keys.len() as int);
        } else {
            let j = choose|j: int| 0 <= j < keys.len() && keys[j]@ == id;
            lemma_lookup(keys, values, j);
            assert(ks[j] == keys[j] && vs[j] == values[j]);
            lemma_lookup(ks, vs, j);
        }
    }
    assert(pair_map(ks, vs) =~= m);
}

proof fn lemma_replace<V>(keys: Seq<String>, values: Seq<V>, i: int, v: V)
    requires
        keys_unique(keys),
        keys.len() == values.len(),
        0 <= i < keys.len(),
    ensures
        pair_map(keys, values.update(i, v)) == pair_map(keys, values).insert(keys[i]@, v),
{
    let vs = values.update(i, v);
    let m = pair_map(keys, values).insert(keys[i]@, v);
    assert(has_key(keys, keys[i]@));
    assert forall|id: Seq<char>| #[trigger] pair_map(keys, vs).contains_key(id) implies pair_map(keys, vs)[id]
        == m[id] by {
        let j = choose|j: int| 0 <= j < keys.len() && keys[j]@ == id;
        lemma_lookup(keys, vs, j);
        if j != i {
            lemma_lookup(keys, values, j);
        }
    }
    assert(pair_map(keys, vs) =~= m);
}

/// Values by string id; an id occurs at most once.
pub struct Registry<V> {
    keys: Vec<String>,
    values: Vec<V>,
}

impl<V> View for Registry<V> {
    type V = Map<Seq<char>, V>;

    closed spec fn view(&self) -> Map<Seq<char>, V> {
        pair_map(self.keys@, self.values@)
    }
}

impl<V> Registry<V> {
    #[verifier::type_invariant]
    spec fn well_formed(&self) -> bool {
        &&& self.keys@.len() == self.values@.len()
        &&& keys_unique(self.keys@)
    }

    /// A registry holds finitely many ids.
    pub proof fn lemma_finite(&self)
        ensures
            self@.dom().finite(),
    {
        let ids = self.keys@.map_values(|k: String| k@);
        vstd::seq_lib::seq_to_set_is_finite(ids);
        assert forall|id: Seq<char>| #[trigger] self@.dom().contains(id) implies ids.to_set().contains(id) by {
            let j = choose|j: int| 0 <= j < self.keys@.len() && self.keys@[j]@ == id;
            assert(ids[j] == id);
        }
        vstd::set_lib::lemma_len_subset(self@.dom(), ids.to_set());
    }

    pub fn new() -> (r: Self)
        ensures
            r@ == Map::<Seq<char>, V>::empty(),
    {
        let r = Registry { keys: Vec::new(), values: Vec::new() };
        assert(r@ =~= Map::<Seq<char>, V>::empty());
        r
    }

    /// Where `id` is stored, if it is.
    fn position(&self, id: &String) -> (r: Option<usize>)
        ensures
            r matches Some(i) ==> i < self.keys@.len() && self.keys@[i as int]@ == id@,
            r is None ==> !has_key(self.keys@, id@),
    {
        let mut i: usize = 0;
        while i < self.keys.len()
            invariant
                i <= self.keys@.len(),
                forall|j: int| 0 <= j < i ==> self.keys@[j]@ != id@,
            decreases self.keys@.len() - i,
        {
            if self.keys[i] == *id {
                return Some(i);
            }
            i = i + 1;
        }
        None
    }

    /// The value stored under `id`.
    pub fn get(&self, id: &str) -> (r: Option<&V>)
        ensures
            self@.contains_key(id@) ==> (r matches Some(v) && *v == self@[id@]),
            !self@.contains_key(id@) ==> r is None,
    {
        proof {
            use_type_invariant(self);
        }
        let key = id.to_owned();
        match self.position(&key) {
            Some(i) => {
                proof {
                    lemma_lookup(self.keys@, self.values@, i as int);
                }
                Some(&self.values[i])
            },
            None => None,
        }
    }

    /// Stores `value` under `id`, replacing what was stored there.
    pub fn insert(&mut self, id: String, value: V)
        ensures
            final(self)@ == old(self)@.insert(id@, value),
    {
        proof {
            use_type_invariant(&*self);
        }
        let ghost keys = self.keys@;
        let ghost values = self.values@;
        let ghost v = value;
        let pos = self.position(&id);
        let mut taken = Registry::new();
        std::mem::swap(&mut taken, self);
        let Registry { keys: mut ks, values: mut vs } = taken;
        match pos {
            Some(i) => {
                vs.set(i, value);
                proof {
                    lemma_replace(keys, values, i as int, v);
                }
            },
            None => {
                let ghost k = id;
                ks.push(id);
                vs.push(value);
                proof {
                    lemma_push(keys, values, k, v);
                }
            },
        }
        *self = Registry { keys: ks, values: vs };
    }
}

} // verus!
