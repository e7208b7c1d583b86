use vstd::prelude::*;

verus! {

/// What the entries `e` map each key to (a later entry for a key would win,
/// but a well-formed store holds each key once).
pub open spec fn entries_map<V>(e: Seq<(String, V)>) -> Map<Seq<char>, V>
    decreases e.len(),
{
    if e.len() == 0 {
        Map::empty()
    } else {
        entries_map(e.drop_last()).insert(e.last().0@, e.last().1)
    }
}

/// No key occurs twice among the entries `e`.
pub open spec fn distinct_keys<V>(e: Seq<(String, V)>) -> bool {
    forall|i: int, j: int|
        0 <= i < e.len() && 0 <= j < e.len() && i != j ==> #[trigger] e[i].0@ != #[trigger] e[j].0@
}

proof fn lemma_entries_map_dom<V>(e: Seq<(String, V)>, k: Seq<char>)
    ensures
        entries_map(e).contains_key(k) <==> exists|i: int| 0 <= i < e.len() && #[trigger] e[i].0@ == k,
    decreases e.len(),
{
    if e.len() > 0 {
        let p = e.drop_last();
        lemma_entries_map_dom(p, k);
        if entries_map(p).contains_key(k) {
            let i = choose|i: int| 0 <= i < p.len() && #[trigger] p[i].0@ == k;
            assert(e[i] == p[i]);
        }
        if exists|i: int| 0 <= i < e.len() && #[trigger] e[i].0@ == k {
            let i = choose|i: int| 0 <= i < e.len() && #[trigger] e[i].0@ == k;
            if i < e.len() - 1 {
                assert(p[i] == e[i]);
            }
        }
    }
}

proof fn lemma_entries_map_value<V>(e: Seq<(String, V)>, i: int)
    requires
        distinct_keys(e),
        0 <= i < e.len(),
    ensures
        entries_map(e).contains_key(e[i].0@),
        entries_map(e)[e[i].0@] == e[i].1,
    decreases e.len(),
{
    if i < e.len() - 1 {
        let p = e.drop_last();
        assert(p[i] == e[i]);
        assert(distinct_keys(p)) by {
            assert forall|a: int, b: int|
                0 <= a < p.len() && 0 <= b < p.len() && a != b implies #[trigger] p[a].0@
                != #[trigger] p[b].0@ by {
                assert(p[a] == e[a]);
                assert(p[b] == e[b]);
            }
        }
        lemma_entries_map_value(p, i);
        assert(e[i].0@ != e[e.len() - 1].0@);
    }
}

/// The position of the entry with the key `id` among `e`, if there is one.
fn find_key<V>(e: &Vec<(String, V)>, id: &String) -> (r: Option<usize>)
    ensures
        match r {
            Some(i) => i < e@.len() && e@[i as int].0@ == id@,
            None => !entries_map(e@).contains_key(id@),
        },
{
    let mut i: usize = 0;
    while i < e.len()
        invariant
            i <= e@.len(),
            forall|j: int| 0 <= j < i ==> #[trigger] e@[j].0@ != id@,
        decreases e.len() - i,
    {
        if e[i].0 == *id {
            return Some(i);
        }
        i = i + 1;
    }
    proof {
        lemma_entries_map_dom(e@, id@);
    }
    None
}

/// After the entry at `i` is given a new value under the same key, the
/// entries map that key to the new value and every other key as before.
proof fn lemma_update_entry<V>(e: Seq<(String, V)>, i: int, entry: (String, V))
    requires
        distinct_keys(e),
        0 <= i < e.len(),
        entry.0@ == e[i].0@,
    ensures
        distinct_keys(e.update(i, entry)),
        entries_map(e.update(i, entry)) == entries_map(e).insert(entry.0@, entry.1),
{
    let e2 = e.update(i, entry);
    let k = entry.0@;
    let value = entry.1;
    assert(distinct_keys(e2)) by {
        assert forall|a: int, b: int|
            0 <= a < e2.len() && 0 <= b < e2.len() && a != b implies #[trigger] e2[a].0@
            != #[trigger] e2[b].0@ by {
            assert(e2[a].0@ == e[a].0@);
            assert(e2[b].0@ == e[b].0@);
        }
    }
    assert forall|q: Seq<char>| #[trigger]
        entries_map(e2).contains_key(q) == entries_map(e).insert(k, value).contains_key(q) by {
        lemma_entries_map_dom(e2, q);
        lemma_entries_map_dom(e, q);
        if exists|j: int| 0 <= j < e.len() && #[trigger] e[j].0@ == q {
            let j = choose|j: int| 0 <= j < e.len() && #[trigger] e[j].0@ == q;
            assert(e2[j].0@ == q);
        }
        if exists|j: int| 0 <= j < e2.len() && #[trigger] e2[j].0@ == q {
            let j = choose|j: int| 0 <= j < e2.len() && #[trigger] e2[j].0@ == q;
            assert(e[j].0@ == q);
        }
    }
    assert forall|q: Seq<char>| #[trigger] entries_map(e2).contains_key(q) implies entries_map(e2)[q]
        == entries_map(e).insert(k, value)[q] by {
        lemma_entries_map_dom(e2, q);
        let j = choose|j: int| 0 <= j < e2.len() && #[trigger] e2[j].0@ == q;
        lemma_entries_map_value(e2, j);
        if j != i {
            assert(e2[j] == e[j]);
            lemma_entries_map_value(e, j);
        }
    }
    assert(entries_map(e2) =~= entries_map(e).insert(k, value));
}

/// After an entry with a new key is added, the entries map that key to its
/// value and every other key as before.
proof fn lemma_push_entry<V>(e: Seq<(String, V)>, entry: (String, V))
    requires
        distinct_keys(e),
        !entries_map(e).contains_key(entry.0@),
    ensures
        distinct_keys(e.push(entry)),
        entries_map(e.push(entry)) == entries_map(e).insert(entry.0@, entry.1),
{
    let e2 = e.push(entry);
    let k = entry.0@;
    assert(e2.drop_last() == e);
    assert(distinct_keys(e2)) by {
        assert forall|a: int, b: int|
            0 <= a < e2.len() && 0 <= b < e2.len() && a != b implies #[trigger] e2[a].0@
            != #[trigger] e2[b].0@ by {
            if a < e.len() && b < e.len() {
                assert(e2[a] == e[a]);
                assert(e2[b] == e[b]);
            } else if a < e.len() {
                assert(e2[a] == e[a]);
                lemma_entries_map_dom(e, k);
            } else {
                assert(e2[b] == e[b]);
                lemma_entries_map_dom(e, k);
            }
        }
    }
}

/// After the entry at `i` is taken out, the entries map every other key as
/// before, and its key to nothing.
proof fn lemma_remove_entry<V>(e: Seq<(String, V)>, i: int)
    requires
        distinct_keys(e),
        0 <= i < e.len(),
    ensures
        distinct_keys(e.remove(i)),
        entries_map(e.remove(i)) == entries_map(e).remove(e[i].0@),
{
    let e2 = e.remove(i);
    let k = e[i].0@;
    assert forall|a: int| 0 <= a < e2.len() implies #[trigger] e2[a] == (if a < i {
        e[a]
    } else {
        e[a + 1]
    }) by {}
    assert(distinct_keys(e2)) by {
        assert forall|a: int, b: int|
            0 <= a < e2.len() && 0 <= b < e2.len() && a != b implies #[trigger] e2[a].0@
            != #[trigger] e2[b].0@ by {
            let a1 = if a < i { a } else { a + 1 };
            let b1 = if b < i { b } else { b + 1 };
            assert(e2[a] == e[a1]);
            assert(e2[b] == e[b1]);
        }
    }
    assert forall|q: Seq<char>| #[trigger]
        entries_map(e2).contains_key(q) == entries_map(e).remove(k).contains_key(q) by {
        lemma_entries_map_dom(e2, q);
        lemma_entries_map_dom(e, q);
        if exists|j: int| 0 <= j < e.len() && #[trigger] e[j].0@ == q {
            let j = choose|j: int| 0 <= j < e.len() && #[trigger] e[j].0@ == q;
            if q != k {
                assert(j != i);
                let j2 = if j < i { j } else { j - 1 };
                assert(e2[j2] == e[j]);
            }
        }
        if exists|j: int| 0 <= j < e2.len() && #[trigger] e2[j].0@ == q {
            let j = choose|j: int| 0 <= j < e2.len() && #[trigger] e2[j].0@ == q;
            let j1 = if j < i { j } else { j + 1 };
            assert(e2[j] == e[j1]);
            assert(j1 != i);
        }
    }
    assert forall|q: Seq<char>| #[trigger] entries_map(e2).contains_key(q) implies entries_map(e2)[q]
        == entries_map(e).remove(k)[q] by {
        lemma_entries_map_dom(e2, q);
        let j = choose|j: int| 0 <= j < e2.len() && #[trigger] e2[j].0@ == q;
        lemma_entries_map_value(e2, j);
        let j1 = if j < i { j } else { j + 1 };
        assert(e2[j] == e[j1]);
        lemma_entries_map_value(e, j1);
    }
    assert(entries_map(e2) =~= entries_map(e).remove(k));
}

/// A keyed store of the data that each popup window shows, each popup's
/// data under its label. It keeps its entries in a list, each key once.
pub struct PopupStore<V> {
    entries: Vec<(String, V)>,
}

impl<V> View for PopupStore<V> {
    type V = Map<Seq<char>, V>;

    /// What the store maps each popup label to.
    closed spec fn view(&self) -> Map<Seq<char>, V> {
        entries_map(self.entries@)
    }
}

impl<V> PopupStore<V> {
    /// The store's invariant: no label is held twice.
    #[verifier::type_invariant]
    spec fn wf(&self) -> bool {
        distinct_keys(self.entries@)
    }

    /// An empty store.
    pub fn new() -> (s: Self)
        ensures
            s@ == Map::<Seq<char>, V>::empty(),
    {
        PopupStore { entries: Vec::new() }
    }

    /// The data kept for the popup `id`, if any.
    pub fn get(&self, id: &String) -> (r: Option<&V>)
        ensures
            match r {
                Some(v) => self@.contains_key(id@) && *v == self@[id@],
                None => !self@.contains_key(id@),
            },
    {
        proof {
            use_type_invariant(self);
        }
        match find_key(&self.entries, id) {
            Some(i) => {
                proof {
                    lemma_entries_map_value(self.entries@, i as int);
                }
                Some(&self.entries[i].1)
            },
            None => None,
        }
    }

    /// Keeps `value` as the data of the popup `id`, in place of what was
    /// kept for it before.
    pub fn insert(&mut self, id: String, value: V)
        ensures
            final(self)@ == old(self)@.insert(id@, value),
    {
        proof {
            use_type_invariant(&*self);
        }
        let mut e: Vec<(String, V)> = Vec::new();
        std::mem::swap(&mut e, &mut self.entries);
        let ghost e0 = e@;
        match find_key(&e, &id) {
            Some(i) => {
                proof {
                    lemma_update_entry(e0, i as int, (id, value));
                }
                e.set(i, (id, value));
            },
            None => {
                proof {
                    lemma_push_entry(e0, (id, value));
                }
                e.push((id, value));
            },
        }
        self.entries = e;
    }

    /// Forgets what was kept for the popup `id`.
    pub fn remove(&mut self, id: &String)
        ensures
            final(self)@ == old(self)@.remove(id@),
    {
        proof {
            use_type_invariant(&*self);
        }
        let mut e: Vec<(String, V)> = Vec::new();
        std::mem::swap(&mut e, &mut self.entries);
        let ghost e0 = e@;
        match find_key(&e, id) {
            Some(i) => {
                proof {
                    lemma_remove_entry(e0, i as int);
                }
                let _ = e.remove(i);
            },
            None => {
                assert(entries_map(e0) =~= entries_map(e0).remove(id@));
            },
        }
        self.entries = e;
    }
}

/// What `get` reads for a popup after `insert` wrote `value` for it is
/// `value`: `after` is `before` with `value` inserted under `id`.
pub proof fn law_read_after_write<V>(before: PopupStore<V>, after: PopupStore<V>, id: String, value: V)
    requires
        after@ == before@.insert(id@, value),
    ensures
        after@.contains_key(id@),
        after@[id@] == value,
{
}

/// After `remove` cleared a popup's data, `get` reads nothing for it:
/// `after` is `before` with `id` removed.
pub proof fn law_read_after_clear<V>(before: PopupStore<V>, after: PopupStore<V>, id: String)
    requires
        after@ == before@.remove(id@),
    ensures
        !after@.contains_key(id@),
{
}

/// `insert` or `remove` for one popup leaves what `get` reads for every
/// other popup as it was: `after` is `before` with `id` either written or
/// cleared, and `other` is another label.
pub proof fn law_other_popups_untouched<V>(
    before: PopupStore<V>,
    after: PopupStore<V>,
    id: String,
    other: String,
)
    requires
        id@ != other@,
        (exists|value: V| after@ == before@.insert(id@, value)) || after@ == before@.remove(id@),
    ensures
        after@.contains_key(other@) == before@.contains_key(other@),
        before@.contains_key(other@) ==> after@[other@] == before@[other@],
{
}

} // verus!
