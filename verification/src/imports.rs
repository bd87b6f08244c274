//! The import object handed to a module at instantiation: named namespaces,
//! each mapping names to imported values.
use vstd::prelude::*;

verus! {

/// The key of entry `i`.
pub open spec fn key_at<X>(s: Seq<(String, X)>, i: int) -> Seq<char> {
    s[i].0@
}

/// Some entry has key `k`.
pub open spec fn has_key<X>(s: Seq<(String, X)>, k: Seq<char>) -> bool {
    exists|i: int| 0 <= i < s.len() && #[trigger] key_at(s, i) == k
}

/// The keys of the entries, in order.
pub open spec fn keys_of<X>(s: Seq<(String, X)>) -> Seq<Seq<char>> {
    Seq::new(s.len(), |i: int| key_at(s, i))
}

/// An entry with key `k`, where there is one.
pub open spec fn index_of_key<X>(s: Seq<(String, X)>, k: Seq<char>) -> int {
    choose|i: int| 0 <= i < s.len() && #[trigger] key_at(s, i) == k
}

/// No two entries share a key.
pub open spec fn distinct_keys<X>(s: Seq<(String, X)>) -> bool {
    forall|i: int, j: int|
        0 <= i < s.len() && 0 <= j < s.len() && i != j ==> #[trigger] key_at(s, i) != #[trigger] key_at(
            s,
            j,
        )
}

/// The entries as a map from key to value.
pub open spec fn keyed_view<X>(s: Seq<(String, X)>) -> Map<Seq<char>, X> {
    Map::new(|k: Seq<char>| has_key(s, k), |k: Seq<char>| s[index_of_key(s, k)].1)
}

/// The namespaces as a map from namespace name to the namespace's own map.
pub open spec fn namespaces_view<V>(ns: Map<Seq<char>, Vec<(String, V)>>) -> Map<
    Seq<char>,
    Map<Seq<char>, V>,
> {
    Map::new(|k: Seq<char>| ns.contains_key(k), |k: Seq<char>| keyed_view(ns[k]@))
}

/// The imports after `value` is set under `name` in namespace `module`: the
/// namespace is created where it is missing, and an earlier value of that name
/// is replaced.
pub open spec fn register<V>(
    imports: Map<Seq<char>, Map<Seq<char>, V>>,
    module: Seq<char>,
    name: Seq<char>,
    value: V,
) -> Map<Seq<char>, Map<Seq<char>, V>> {
    let namespace = if imports.contains_key(module) {
        imports[module]
    } else {
        Map::empty()
    };
    imports.insert(module, namespace.insert(name, value))
}

/// In entries with distinct keys, the entry at `i` is what the map gives for its key.
pub proof fn lemma_keyed_view_at<X>(s: Seq<(String, X)>, i: int)
    requires
        distinct_keys(s),
        0 <= i < s.len(),
    ensures
        keyed_view(s).contains_key(key_at(s, i)),
        keyed_view(s)[key_at(s, i)] == s[i].1,
        index_of_key(s, key_at(s, i)) == i,
{
    let k = key_at(s, i);
    assert(has_key(s, k));
    let j = index_of_key(s, k);
    assert(0 <= j < s.len() && key_at(s, j) == k);
}

/// Replacing the entry at `j` by one with the same key sets that key's value.
pub proof fn lemma_keyed_view_update<X>(s: Seq<(String, X)>, j: int, entry: (String, X))
    requires
        distinct_keys(s),
        0 <= j < s.len(),
        entry.0@ == key_at(s, j),
    ensures
        distinct_keys(s.update(j, entry)),
        keyed_view(s.update(j, entry)) == keyed_view(s).insert(entry.0@, entry.1),
{
    let t = s.update(j, entry);
    assert forall|a: int, b: int|
        0 <= a < t.len() && 0 <= b < t.len() && a != b implies #[trigger] key_at(t, a)
        != #[trigger] key_at(t, b) by {
        assert(key_at(t, a) == key_at(s, a));
        assert(key_at(t, b) == key_at(s, b));
    }
    assert forall|k: Seq<char>| has_key(t, k) == has_key(s, k) by {
        if has_key(t, k) {
            let a = choose|a: int| 0 <= a < t.len() && #[trigger] key_at(t, a) == k;
            assert(key_at(s, a) == k);
        }
        if has_key(s, k) {
            let a = choose|a: int| 0 <= a < s.len() && #[trigger] key_at(s, a) == k;
            assert(key_at(t, a) == k);
        }
    }
    assert forall|k: Seq<char>| #[trigger] keyed_view(t).contains_key(k) implies keyed_view(t)[k]
        == keyed_view(s).insert(entry.0@, entry.1)[k] by {
        let a = choose|a: int| 0 <= a < t.len() && #[trigger] key_at(t, a) == k;
        lemma_keyed_view_at(t, a);
        if a != j {
            lemma_keyed_view_at(s, a);
        }
    }
    assert(keyed_view(t) =~= keyed_view(s).insert(entry.0@, entry.1));
}

/// Appending an entry with a new key adds that key with its value.
pub proof fn lemma_keyed_view_push<X>(s: Seq<(String, X)>, entry: (String, X))
    requires
        distinct_keys(s),
        !has_key(s, entry.0@),
    ensures
        distinct_keys(s.push(entry)),
        keyed_view(s.push(entry)) == keyed_view(s).insert(entry.0@, entry.1),
{
    let t = s.push(entry);
    let n = s.len() as int;
    assert forall|a: int, b: int|
        0 <= a < t.len() && 0 <= b < t.len() && a != b implies #[trigger] key_at(t, a)
        != #[trigger] key_at(t, b) by {
        if a < n && b < n {
            assert(key_at(t, a) == key_at(s, a));
            assert(key_at(t, b) == key_at(s, b));
        } else if a < n {
            assert(key_at(t, a) == key_at(s, a));
        } else if b < n {
            assert(key_at(t, b) == key_at(s, b));
        }
    }
    assert forall|k: Seq<char>| has_key(t, k) == (has_key(s, k) || k == entry.0@) by {
        if has_key(t, k) {
            let a = choose|a: int| 0 <= a < t.len() && #[trigger] key_at(t, a) == k;
            if a < n {
                assert(key_at(s, a) == k);
            }
        }
        if has_key(s, k) {
            let a = choose|a: int| 0 <= a < s.len() && #[trigger] key_at(s, a) == k;
            assert(key_at(t, a) == k);
        }
        if k == entry.0@ {
            assert(key_at(t, n) == k);
        }
    }
    assert forall|k: Seq<char>| #[trigger] keyed_view(t).contains_key(k) implies keyed_view(t)[k]
        == keyed_view(s).insert(entry.0@, entry.1)[k] by {
        let a = choose|a: int| 0 <= a < t.len() && #[trigger] key_at(t, a) == k;
        lemma_keyed_view_at(t, a);
        if a < n {
            assert(key_at(s, a) == key_at(t, a));
            lemma_keyed_view_at(s, a);
        }
    }
    assert(keyed_view(t) =~= keyed_view(s).insert(entry.0@, entry.1));
}

/// Looks for an entry with key `key`.
fn find_key<X>(s: &Vec<(String, X)>, key: &String) -> (r: Option<usize>)
    ensures
        match r {
            Some(i) => i < s@.len() && key_at(s@, i as int) == key@,
            None => !has_key(s@, key@),
        },
{
    let mut i: usize = 0;
    while i < s.len()
        invariant
            i <= s@.len(),
            forall|j: int| 0 <= j < i ==> #[trigger] key_at(s@, j) != key@,
        decreases s@.len() - i,
    {
        if s[i].0 == *key {
            return Some(i);
        }
        i += 1;
    }
    None
}

/// An import object: namespaces in the order they were created, each holding
/// named values.
pub struct Imports<V> {
    namespaces: Vec<(String, Vec<(String, V)>)>,
}

impl<V> View for Imports<V> {
    type V = Map<Seq<char>, Map<Seq<char>, V>>;

    closed spec fn view(&self) -> Map<Seq<char>, Map<Seq<char>, V>> {
        namespaces_view(keyed_view(self.namespaces@))
    }
}

impl<V> Imports<V> {
    /// Namespace names are distinct, and so are the names within each namespace.
    pub closed spec fn wf(&self) -> bool {
        &&& distinct_keys(self.namespaces@)
        &&& forall|i: int|
            0 <= i < self.namespaces@.len() ==> distinct_keys(#[trigger] self.namespaces@[i].1@)
    }

    /// The number of namespaces.
    pub closed spec fn namespace_count(&self) -> int {
        self.namespaces@.len() as int
    }

    /// The name of the namespace at position `i`.
    pub closed spec fn namespace_at(&self, i: int) -> Seq<char> {
        key_at(self.namespaces@, i)
    }

    /// The names set in the namespace at position `i`, in the order they were first set.
    pub closed spec fn names_at(&self, i: int) -> Seq<Seq<char>> {
        keys_of(self.namespaces@[i].1@)
    }

    /// The namespace at position `i` is the one of that name.
    pub proof fn lemma_namespace_at(&self, i: int)
        requires
            self.wf(),
            0 <= i < self.namespace_count(),
        ensures
            self@.contains_key(self.namespace_at(i)),
    {
        lemma_keyed_view_at(self.namespaces@, i);
    }

    /// A namespace has one position: two positions holding the same name are the
    /// same position, so looking a namespace up again finds it where it was.
    pub proof fn law_namespace_position_unique(&self, i: int, j: int)
        requires
            self.wf(),
            0 <= i < self.namespace_count(),
            0 <= j < self.namespace_count(),
            self.namespace_at(i) == self.namespace_at(j),
        ensures
            i == j,
    {
    }

    /// An empty import object.
    pub fn new() -> (r: Imports<V>)
        ensures
            r.wf(),
            r@ == Map::<Seq<char>, Map<Seq<char>, V>>::empty(),
            r.namespace_count() == 0,
    {
        let r = Imports { namespaces: Vec::new() };
        assert(r@ =~= Map::<Seq<char>, Map<Seq<char>, V>>::empty());
        r
    }

    /// The position of the namespace named `module`, where there is one.
    pub fn find(&self, module: &str) -> (r: Option<usize>)
        requires
            self.wf(),
        ensures
            match r {
                Some(i) => {
                    &&& i < self.namespace_count()
                    &&& self.namespace_at(i as int) == module@
                    &&& self@.contains_key(module@)
                },
                None => !self@.contains_key(module@),
            },
    {
        let key = module.to_owned();
        let r = find_key(&self.namespaces, &key);
        proof {
            if let Some(i) = r {
                lemma_keyed_view_at(self.namespaces@, i as int);
            }
        }
        r
    }

    /// Adds an empty namespace named `module`, which must not exist yet, and
    /// returns its position.
    pub fn insert_namespace(&mut self, module: &str) -> (r: usize)
        requires
            old(self).wf(),
            !old(self)@.contains_key(module@),
        ensures
            final(self).wf(),
            final(self)@ == old(self)@.insert(module@, Map::empty()),
            r < final(self).namespace_count(),
            r == old(self).namespace_count(),
            final(self).namespace_at(r as int) == module@,
            final(self).namespace_count() == old(self).namespace_count() + 1,
            forall|i: int|
                0 <= i < old(self).namespace_count() ==> #[trigger] final(self).namespace_at(i)
                    == old(self).namespace_at(i),
            final(self).names_at(r as int) == Seq::<Seq<char>>::empty(),
            forall|i: int|
                0 <= i < old(self).namespace_count() ==> #[trigger] final(self).names_at(i)
                    == old(self).names_at(i),
    {
        let ghost before = self.namespaces@;
        let entry: (String, Vec<(String, V)>) = (module.to_owned(), Vec::new());
        proof {
            lemma_keyed_view_push(before, entry);
        }
        self.namespaces.push(entry);
        let r = self.namespaces.len() - 1;
        proof {
            let after = self.namespaces@;
            assert(after == before.push(entry));
            assert forall|i: int| 0 <= i < after.len() implies distinct_keys(
                #[trigger] after[i].1@,
            ) by {
                if i < before.len() {
                    assert(after[i] == before[i]);
                } else {
                    assert(after[i].1@ =~= Seq::<(String, V)>::empty());
                }
            }
            assert(keyed_view(entry.1@) =~= Map::<Seq<char>, V>::empty());
            assert(keys_of(entry.1@) =~= Seq::<Seq<char>>::empty());
            assert forall|i: int| 0 <= i < before.len() implies #[trigger] self.names_at(i)
                == old(self).names_at(i) by {
                assert(after[i] == before[i]);
            }
            assert(self@ =~= old(self)@.insert(module@, Map::empty()));
        }
        r
    }

    /// Sets `value` under `name` in the namespace at position `module`, replacing
    /// an earlier value of that name.
    pub fn set(&mut self, module: usize, name: &str, value: V)
        requires
            old(self).wf(),
            module < old(self).namespace_count(),
        ensures
            final(self).wf(),
            final(self)@ == register(
                old(self)@,
                old(self).namespace_at(module as int),
                name@,
                value,
            ),
            final(self).namespace_count() == old(self).namespace_count(),
            forall|i: int|
                0 <= i < old(self).namespace_count() ==> #[trigger] final(self).namespace_at(i)
                    == old(self).namespace_at(i),
            final(self).names_at(module as int) == if old(self)@[old(self).namespace_at(
                module as int,
            )].contains_key(name@) {
                old(self).names_at(module as int)
            } else {
                old(self).names_at(module as int).push(name@)
            },
            forall|i: int|
                0 <= i < old(self).namespace_count() && i != module ==> #[trigger] final(self).names_at(i)
                    == old(self).names_at(i),
    {
        let ghost before = self.namespaces@;
        let ghost m = key_at(before, module as int);
        proof {
            lemma_keyed_view_at(before, module as int);
        }
        let (module_name, mut entries) = self.namespaces.remove(module);
        let ghost old_entries = entries@;
        assert(old_entries == before[module as int].1@);
        let key = name.to_owned();
        match find_key(&entries, &key) {
            Some(j) => {
                proof {
                    lemma_keyed_view_update(old_entries, j as int, (key, value));
                    assert(keys_of(old_entries.update(j as int, (key, value))) =~= keys_of(
                        old_entries,
                    ));
                    assert(has_key(old_entries, name@));
                }
                entries.set(j, (key, value));
            },
            None => {
                proof {
                    lemma_keyed_view_push(old_entries, (key, value));
                    assert(keys_of(old_entries.push((key, value))) =~= keys_of(old_entries).push(
                        name@,
                    ));
                }
                entries.push((key, value));
            },
        }
        let ghost new_entries = entries;
        let new_namespace = (module_name, entries);
        proof {
            assert(keyed_view(new_entries@) == keyed_view(old_entries).insert(name@, value));
            lemma_keyed_view_update(before, module as int, new_namespace);
        }
        self.namespaces.insert(module, new_namespace);
        proof {
            let after = self.namespaces@;
            assert(after =~= before.update(module as int, new_namespace));
            assert forall|i: int| 0 <= i < after.len() implies distinct_keys(
                #[trigger] after[i].1@,
            ) by {
                if i != module {
                    assert(after[i] == before[i]);
                }
            }
            let ks = keyed_view(before);
            assert(keyed_view(after) == ks.insert(m, new_namespace.1));
            assert(old(self)@.contains_key(m));
            assert(old(self)@[m] == keyed_view(ks[m]@));
            assert(ks[m] == before[module as int].1);
            assert(self@ =~= register(old(self)@, m, name@, value));
            assert(old(self)@[m] == keyed_view(old_entries));
            assert forall|i: int| 0 <= i < before.len() && i != module implies #[trigger] self.names_at(
                i,
            ) == old(self).names_at(i) by {
                assert(after[i] == before[i]);
            }
        }
    }

    /// The namespaces in the order they were created, each with its named values:
    /// what the host turns into its own import object.
    pub fn into_namespaces(self) -> (r: Vec<(String, Vec<(String, V)>)>)
        requires
            self.wf(),
        ensures
            distinct_keys(r@),
            forall|i: int| 0 <= i < r@.len() ==> distinct_keys(#[trigger] r@[i].1@),
            namespaces_view(keyed_view(r@)) == self@,
            r@.len() == self.namespace_count(),
            forall|i: int|
                0 <= i < r@.len() ==> #[trigger] key_at(r@, i) == self.namespace_at(i) && keys_of(
                    r@[i].1@,
                ) == self.names_at(i),
    {
        self.namespaces
    }

    /// The value set under `name` in namespace `module`, where there is one.
    pub fn get(&self, module: &str, name: &str) -> (r: Option<&V>)
        requires
            self.wf(),
        ensures
            match r {
                Some(v) => self@.contains_key(module@) && self@[module@].contains_key(name@) && *v
                    == self@[module@][name@],
                None => !(self@.contains_key(module@) && self@[module@].contains_key(name@)),
            },
    {
        match self.find(module) {
            Some(i) => {
                proof {
                    lemma_keyed_view_at(self.namespaces@, i as int);
                }
                let entries = &self.namespaces[i].1;
                assert(distinct_keys(self.namespaces@[i as int].1@));
                let key = name.to_owned();
                match find_key(entries, &key) {
                    Some(j) => {
                        proof {
                            lemma_keyed_view_at(entries@, j as int);
                        }
                        Some(&entries[j].1)
                    },
                    None => None,
                }
            },
            None => None,
        }
    }
}

} // verus!
