//! Dead-letter store: transactions that ran out of retries, by transaction id.
//!
//! The entries are kept in a vector whose transaction ids are unique (the
//! type invariant), not in a `HashMap<String, _>`: what a string-keyed hash
//! map holds after an insert or a removal cannot be proved here, while the
//! vector's contents can be stated exactly as a `Map` from id to entry.
use vstd::prelude::*;

verus! {

/// A transaction that ran out of retries.
#[derive(Debug)]
pub struct DLQEntry {
    pub transaction_id: String,
    pub psp_name: String,
    pub payload: Vec<u8>,
    pub attempt_count: u32,
    pub last_error: String,
    pub timestamp_ms: u64,
}

/// What a `DLQEntry` holds, as mathematical values.
pub struct DLQEntryView {
    pub transaction_id: Seq<char>,
    pub psp_name: Seq<char>,
    pub payload: Seq<u8>,
    pub attempt_count: u32,
    pub last_error: Seq<char>,
    pub timestamp_ms: u64,
}

impl View for DLQEntry {
    type V = DLQEntryView;

    open spec fn view(&self) -> DLQEntryView {
        DLQEntryView {
            transaction_id: self.transaction_id@,
            psp_name: self.psp_name@,
            payload: self.payload@,
            attempt_count: self.attempt_count,
            last_error: self.last_error@,
            timestamp_ms: self.timestamp_ms,
        }
    }
}

impl Clone for DLQEntry {
    fn clone(&self) -> (r: Self)
        ensures
            r@ == self@,
    {
        let payload = self.payload.clone();
        assert(payload@ =~= self.payload@);
        DLQEntry {
            transaction_id: self.transaction_id.clone(),
            psp_name: self.psp_name.clone(),
            payload,
            attempt_count: self.attempt_count,
            last_error: self.last_error.clone(),
            timestamp_ms: self.timestamp_ms,
        }
    }
}

/// No two entries share a transaction id.
pub open spec fn ids_unique(s: Seq<DLQEntry>) -> bool {
    forall|i: int, j: int|
        0 <= i < s.len() && 0 <= j < s.len() && i != j ==> s[i].transaction_id@ != s[j].transaction_id@
}

/// Some entry has transaction id `id`.
pub open spec fn has_id(s: Seq<DLQEntry>, id: Seq<char>) -> bool {
    exists|i: int| 0 <= i < s.len() && s[i].transaction_id@ == id
}

/// The entries keyed by transaction id.
pub open spec fn entry_map(s: Seq<DLQEntry>) -> Map<Seq<char>, DLQEntryView> {
    Map::new(
        |id: Seq<char>| has_id(s, id),
        |id: Seq<char>| s[choose|i: int| 0 <= i < s.len() && s[i].transaction_id@ == id]@,
    )
}

proof fn lemma_lookup(s: Seq<DLQEntry>, i: int)
    requires
        ids_unique(s),
        0 <= i < s.len(),
    ensures
        entry_map(s).contains_key(s[i].transaction_id@),
        entry_map(s)[s[i].transaction_id@] == s[i]@,
{
    let id = s[i].transaction_id@;
    assert(has_id(s, id));
    let j = choose|j: int| 0 <= j < s.len() && s[j].transaction_id@ == id;
    assert(j == i);
}

proof fn lemma_push(s: Seq<DLQEntry>, e: DLQEntry)
    requires
        ids_unique(s),
        !has_id(s, e.transaction_id@),
    ensures
        ids_unique(s.push(e)),
        entry_map(s.push(e)) == entry_map(s).insert(e.transaction_id@, e@),
{
    let t = s.push(e);
    let id = e.transaction_id@;
    assert forall|a: int, b: int|
        0 <= a < t.len() && 0 <= b < t.len() && a != b implies t[a].transaction_id@
        != t[b].transaction_id@ by {
        if a == s.len() {
            assert(t[b] == s[b]);
        } else if b == s.len() {
            assert(t[a] == s[a]);
        } else {
            assert(t[a] == s[a] && t[b] == s[b]);
        }
    }
    let m = entry_map(s).insert(id, e@);
    assert forall|k: Seq<char>| #[trigger] entry_map(t).contains_key(k) == m.contains_key(k) by {
        if has_id(t, k) && k != id {
            let j = choose|j: int| 0 <= j < t.len() && t[j].transaction_id@ == k;
            assert(t[j] == s[j]);
            assert(has_id(s, k));
        }
        if has_id(s, k) {
            let j = choose|j: int| 0 <= j < s.len() && s[j].transaction_id@ == k;
            assert(t[j] == s[j]);
            assert(has_id(t, k));
        }
        if k == id {
            assert(t[s.len() as int] == e);
            assert(has_id(t, k));
        }
    }
    assert forall|k: Seq<char>| #[trigger] entry_map(t).contains_key(k) implies entry_map(t)[k] == m[k] by {
        if k == id {
            assert(t[s.len() as int] == e);
            lemma_lookup(t, s.len() as int);
        } else {
            let j = choose|j: int| 0 <= j < s.len() && s[j].transaction_id@ == k;
            lemma_lookup(s, j);
            assert(t[j] == s[j]);
            lemma_lookup(t, j);
        }
    }
    assert(entry_map(t) =~= m);
}

proof fn lemma_replace(s: Seq<DLQEntry>, i: int, e: DLQEntry)
    requires
        ids_unique(s),
        0 <= i < s.len(),
        s[i].transaction_id@ == e.transaction_id@,
    ensures
        ids_unique(s.update(i, e)),
        entry_map(s.update(i, e)) == entry_map(s).insert(e.transaction_id@, e@),
{
    let t = s.update(i, e);
    let id = e.transaction_id@;
    assert forall|a: int, b: int|
        0 <= a < t.len() && 0 <= b < t.len() && a != b implies t[a].transaction_id@
        != t[b].transaction_id@ by {
        assert(t[a].transaction_id@ == s[a].transaction_id@);
        assert(t[b].transaction_id@ == s[b].transaction_id@);
    }
    let m = entry_map(s).insert(id, e@);
    assert forall|k: Seq<char>| #[trigger] entry_map(t).contains_key(k) == m.contains_key(k) by {
        if has_id(t, k) {
            let j = choose|j: int| 0 <= j < t.len() && t[j].transaction_id@ == k;
            assert(t[j].transaction_id@ == s[j].transaction_id@);
            assert(has_id(s, k));
        }
        if has_id(s, k) {
            let j = choose|j: int| 0 <= j < s.len() && s[j].transaction_id@ == k;
            assert(t[j].transaction_id@ == s[j].transaction_id@);
            assert(has_id(t, k));
        }
        if k == id {
            assert(has_id(s, k));
        }
    }
    assert forall|k: Seq<char>| #[trigger] entry_map(t).contains_key(k) implies entry_map(t)[k] == m[k] by {
        if k == id {
            lemma_lookup(t, i);
        } else {
            let j = choose|j: int| 0 <= j < s.len() && s[j].transaction_id@ == k;
            lemma_lookup(s, j);
            assert(t[j] == s[j]);
            lemma_lookup(t, j);
        }
    }
    assert(entry_map(t) =~= m);
}

proof fn lemma_remove(s: Seq<DLQEntry>, i: int)
    requires
        ids_unique(s),
        0 <= i < s.len(),
    ensures
        ids_unique(s.remove(i)),
        entry_map(s.remove(i)) == entry_map(s).remove(s[i].transaction_id@),
{
    let t = s.remove(i);
    let id = s[i].transaction_id@;
    assert forall|a: int| 0 <= a < t.len() implies #[trigger] t[a] == s[if a < i {
        a
    } else {
        a + 1
    }] by {}
    assert forall|a: int, b: int|
        0 <= a < t.len() && 0 <= b < t.len() && a != b implies t[a].transaction_id@
        != t[b].transaction_id@ by {
        let sa = if a < i {
            a
        } else {
            a + 1
        };
        let sb = if b < i {
            b
        } else {
            b + 1
        };
        assert(t[a] == s[sa] && t[b] == s[sb]);
    }
    let m = entry_map(s).remove(id);
    assert forall|k: Seq<char>| #[trigger] entry_map(t).contains_key(k) == m.contains_key(k) by {
        if has_id(t, k) {
            let j = choose|j: int| 0 <= j < t.len() && t[j].transaction_id@ == k;
            let sj = if j < i {
                j
            } else {
                j + 1
            };
            assert(t[j] == s[sj]);
            assert(has_id(s, k));
            assert(k != id);
        }
        if has_id(s, k) && k != id {
            let j = choose|j: int| 0 <= j < s.len() && s[j].transaction_id@ == k;
            assert(j != i);
            let tj = if j < i {
                j
            } else {
                j - 1
            };
            assert(t[tj] == s[j]);
            assert(has_id(t, k));
        }
    }
    assert forall|k: Seq<char>| #[trigger] entry_map(t).contains_key(k) implies entry_map(t)[k] == m[k] by {
        let j = choose|j: int| 0 <= j < t.len() && t[j].transaction_id@ == k;
        let sj = if j < i {
            j
        } else {
            j + 1
        };
        assert(t[j] == s[sj]);
        lemma_lookup(t, j);
        lemma_lookup(s, sj);
    }
    assert(entry_map(t) =~= m);
}

/// The stored ids are those of the entries, so there are finitely many.
proof fn lemma_ids(s: Seq<DLQEntry>)
    ensures
        entry_map(s).dom() == s.map_values(|e: DLQEntry| e.transaction_id@).to_set(),
        entry_map(s).dom().finite(),
{
    let ids = s.map_values(|e: DLQEntry| e.transaction_id@);
    vstd::seq_lib::seq_to_set_is_finite(ids);
    assert forall|k: Seq<char>| #[trigger] entry_map(s).dom().contains(k) == ids.to_set().contains(k) by {
        if has_id(s, k) {
            let j = choose|j: int| 0 <= j < s.len() && s[j].transaction_id@ == k;
            assert(ids[j] == k);
        }
        if ids.contains(k) {
            let j = choose|j: int| 0 <= j < ids.len() && ids[j] == k;
            assert(has_id(s, k));
        }
    }
    assert(entry_map(s).dom() =~= ids.to_set());
}

proof fn lemma_len(s: Seq<DLQEntry>)
    requires
        ids_unique(s),
    ensures
        entry_map(s).len() == s.len(),
{
    let ids = s.map_values(|e: DLQEntry| e.transaction_id@);
    assert(ids.no_duplicates());
    ids.unique_seq_to_set();
    lemma_ids(s);
}

/// Adding an entry under a transaction id that is already stored replaces
/// the stored entry and leaves the number of entries unchanged.
pub proof fn law_add_under_stored_id_replaces(store: Map<Seq<char>, DLQEntryView>, e: DLQEntryView)
    requires
        store.contains_key(e.transaction_id),
    ensures
        store.insert(e.transaction_id, e)[e.transaction_id] == e,
        store.insert(e.transaction_id, e).len() == store.len(),
{
    assert(store.insert(e.transaction_id, e).dom() =~= store.dom());
}

/// The dead-letter store. Adding under an id that is present replaces the
/// entry stored there.
pub struct DeadLetterQueue {
    entries: Vec<DLQEntry>,
}

impl View for DeadLetterQueue {
    type V = Map<Seq<char>, DLQEntryView>;

    closed spec fn view(&self) -> Map<Seq<char>, DLQEntryView> {
        entry_map(self.entries@)
    }
}

impl DeadLetterQueue {
    #[verifier::type_invariant]
    spec fn ids_are_unique(&self) -> bool {
        ids_unique(self.entries@)
    }

    /// The store holds finitely many entries.
    pub proof fn lemma_finite(&self)
        ensures
            self@.dom().finite(),
    {
        lemma_ids(self.entries@);
    }

    pub fn new() -> (r: Self)
        ensures
            r@ == Map::<Seq<char>, DLQEntryView>::empty(),
    {
        let r = DeadLetterQueue { entries: Vec::new() };
        assert(r@ =~= Map::<Seq<char>, DLQEntryView>::empty());
        r
    }

    /// Where the entry for `id` is stored, if there is one.
    fn position(&self, id: &String) -> (r: Option<usize>)
        ensures
            r matches Some(i) ==> i < self.entries@.len() && self.entries@[i as int].transaction_id@
                == id@,
            r is None ==> !has_id(self.entries@, id@),
    {
        let mut i: usize = 0;
        while i < self.entries.len()
            invariant
                i <= self.entries@.len(),
                forall|j: int| 0 <= j < i ==> self.entries@[j].transaction_id@ != id@,
            decreases self.entries@.len() - i,
        {
            if self.entries[i].transaction_id == *id {
                return Some(i);
            }
            i = i + 1;
        }
        None
    }

    /// Stores `entry` under its transaction id, replacing any entry stored there.
    pub fn add_entry(&mut self, entry: DLQEntry)
        ensures
            final(self)@ == old(self)@.insert(entry.transaction_id@, entry@),
    {
        proof {
            use_type_invariant(&*self);
        }
        let ghost before = self.entries@;
        let ghost e = entry;
        let pos = self.position(&entry.transaction_id);
        let mut entries: Vec<DLQEntry> = Vec::new();
        std::mem::swap(&mut entries, &mut self.entries);
        match pos {
            Some(i) => {
                entries.set(i, entry);
                proof {
                    lemma_replace(before, i as int, e);
                }
            },
            None => {
                entries.push(entry);
                proof {
                    lemma_push(before, e);
                }
            },
        }
        self.entries = entries;
    }

    /// Whether a transaction is stored.
    pub fn contains(&self, transaction_id: &str) -> (r: bool)
        ensures
            r == self@.contains_key(transaction_id@),
    {
        let id = transaction_id.to_owned();
        self.position(&id).is_some()
    }

    /// A copy of the entry stored for a transaction.
    pub fn get_entry(&self, transaction_id: &str) -> (r: Option<DLQEntry>)
        ensures
            self@.contains_key(transaction_id@) ==> (r matches Some(e) && e@ == self@[transaction_id@]),
            !self@.contains_key(transaction_id@) ==> r is None,
    {
        proof {
            use_type_invariant(self);
        }
        let id = transaction_id.to_owned();
        match self.position(&id) {
            Some(i) => {
                proof {
                    lemma_lookup(self.entries@, i as int);
                }
                Some(self.entries[i].clone())
            },
            None => None,
        }
    }

    /// A copy of every entry, in no particular order.
    pub fn get_all_entries(&self) -> (r: Vec<DLQEntry>)
        ensures
            r@.len() == self@.len(),
            forall|i: int|
                0 <= i < r@.len() ==> self@.contains_key(#[trigger] r@[i].transaction_id@)
                    && self@[r@[i].transaction_id@] == r@[i]@,
            forall|id: Seq<char>|
                #[trigger] self@.contains_key(id) ==> exists|i: int|
                    0 <= i < r@.len() && r@[i].transaction_id@ == id,
    {
        proof {
            use_type_invariant(self);
            lemma_len(self.entries@);
        }
        let mut r: Vec<DLQEntry> = Vec::new();
        let mut i: usize = 0;
        while i < self.entries.len()
            invariant
                i <= self.entries@.len(),
                r@.len() == i,
                forall|j: int| 0 <= j < i ==> #[trigger] r@[j]@ == self.entries@[j]@,
            decreases self.entries@.len() - i,
        {
            r.push(self.entries[i].clone());
            i = i + 1;
        }
        proof {
            assert forall|j: int| 0 <= j < r@.len() implies self@.contains_key(
                #[trigger] r@[j].transaction_id@,
            ) && self@[r@[j].transaction_id@] == r@[j]@ by {
                assert(r@[j]@ == self.entries@[j]@);
                lemma_lookup(self.entries@, j);
            }
            assert forall|id: Seq<char>| #[trigger] self@.contains_key(id) implies exists|j: int|
                0 <= j < r@.len() && r@[j].transaction_id@ == id by {
                let j = choose|j: int|
                    0 <= j < self.entries@.len() && self.entries@[j].transaction_id@ == id;
                assert(r@[j]@ == self.entries@[j]@);
            }
        }
        r
    }

    /// Takes out the entry stored for a transaction, if there is one.
    pub fn remove_entry(&mut self, transaction_id: &str) -> (r: Option<DLQEntry>)
        ensures
            old(self)@.contains_key(transaction_id@) ==> (r matches Some(e) && e@ == old(
                self,
            )@[transaction_id@]),
            !old(self)@.contains_key(transaction_id@) ==> r is None,
            final(self)@ == old(self)@.remove(transaction_id@),
    {
        proof {
            use_type_invariant(&*self);
        }
        let id = transaction_id.to_owned();
        match self.position(&id) {
            Some(i) => {
                let ghost before = self.entries@;
                proof {
                    lemma_lookup(before, i as int);
                    lemma_remove(before, i as int);
                }
                let mut entries: Vec<DLQEntry> = Vec::new();
                std::mem::swap(&mut entries, &mut self.entries);
                let removed = entries.remove(i);
                self.entries = entries;
                Some(removed)
            },
            None => {
                proof {
                    assert(self@.remove(transaction_id@) =~= self@);
                }
                None
            },
        }
    }

    /// How many transactions are stored.
    pub fn count(&self) -> (r: usize)
        ensures
            r == self@.len(),
    {
        proof {
            use_type_invariant(self);
            lemma_len(self.entries@);
        }
        self.entries.len()
    }
}

impl Default for DeadLetterQueue {
    fn default() -> (r: Self)
        ensures
            r@ == Map::<Seq<char>, DLQEntryView>::empty(),
    {
        Self::new()
    }
}

} // verus!
