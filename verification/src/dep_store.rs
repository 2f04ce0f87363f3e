use vstd::prelude::*;
use std::any::TypeId;

verus! {

#[verifier::external_type_specification]
#[verifier::external_body]
pub struct ExTypeId(TypeId);

/// `TypeId::of::<T>()`. Nothing is claimed of the identifier: no contract
/// names the identifier of a type.
#[verifier::external_body]
fn type_key<T: ?Sized + 'static>() -> TypeId {
    TypeId::of::<T>()
}

/// `TypeId`'s `==`: two identifiers compare equal exactly when they are the
/// same value.
#[verifier::external_body]
fn same_key(a: &TypeId, b: &TypeId) -> (r: bool)
    ensures
        r == (*a == *b),
{
    *a == *b
}

/// The map that a list of keyed values stands for, later values winning.
pub open spec fn keyed_map<V>(s: Seq<(TypeId, V)>) -> Map<TypeId, V>
    decreases s.len(),
{
    if s.len() == 0 {
        Map::empty()
    } else {
        keyed_map(s.drop_last()).insert(s.last().0, s.last().1)
    }
}

/// No key occurs twice.
pub open spec fn distinct_keys<V>(s: Seq<(TypeId, V)>) -> bool {
    forall|i: int, j: int| 0 <= i < j < s.len() ==> s[i].0 != s[j].0
}

/// With distinct keys, the map holds exactly the listed keys, each with its
/// listed value.
pub proof fn lemma_keyed_map<V>(s: Seq<(TypeId, V)>)
    requires
        distinct_keys(s),
    ensures
        forall|k: TypeId| #[trigger] keyed_map(s).contains_key(k) <==> exists|i: int| 0 <= i < s.len() && s[i].0 == k,
        forall|i: int| 0 <= i < s.len() ==> #[trigger] keyed_map(s)[s[i].0] == s[i].1,
    decreases s.len(),
{
    if s.len() > 0 {
        let d = s.drop_last();
        assert(distinct_keys(d)) by {
            assert forall|i: int, j: int| 0 <= i < j < d.len() implies d[i].0 != d[j].0 by {
                assert(d[i] == s[i] && d[j] == s[j]);
            }
        }
        lemma_keyed_map(d);
        assert forall|k: TypeId| #[trigger] keyed_map(s).contains_key(k) <==> exists|i: int| 0 <= i < s.len() && s[i].0 == k by {
            if keyed_map(s).contains_key(k) {
                if k != s.last().0 {
                    assert(keyed_map(d).contains_key(k));
                    let i = choose|i: int| 0 <= i < d.len() && d[i].0 == k;
                    assert(s[i] == d[i]);
                } else {
                    assert(s[s.len() - 1].0 == k);
                }
            }
            if exists|i: int| 0 <= i < s.len() && s[i].0 == k {
                let i = choose|i: int| 0 <= i < s.len() && s[i].0 == k;
                if i < s.len() - 1 {
                    assert(d[i] == s[i]);
                    assert(keyed_map(d).contains_key(k));
                }
            }
        }
        assert forall|i: int| 0 <= i < s.len() implies #[trigger] keyed_map(s)[s[i].0] == s[i].1 by {
            if i < s.len() - 1 {
                assert(d[i] == s[i]);
                assert(s[i].0 != s[s.len() - 1].0);
                assert(keyed_map(d)[d[i].0] == d[i].1);
            } else {
                assert(s[i] == s.last());
            }
        }
    }
}

/// Replacing the value at a key's place changes only that key's value.
pub proof fn lemma_keyed_map_update<V>(s: Seq<(TypeId, V)>, i: int, v: V)
    requires
        distinct_keys(s),
        0 <= i < s.len(),
    ensures
        distinct_keys(s.update(i, (s[i].0, v))),
        keyed_map(s.update(i, (s[i].0, v))) == keyed_map(s).insert(s[i].0, v),
{
    let u = s.update(i, (s[i].0, v));
    assert(distinct_keys(u)) by {
        assert forall|a: int, b: int| 0 <= a < b < u.len() implies u[a].0 != u[b].0 by {
            assert(u[a].0 == s[a].0 && u[b].0 == s[b].0);
        }
    }
    lemma_keyed_map(s);
    lemma_keyed_map(u);
    let m1 = keyed_map(u);
    let m2 = keyed_map(s).insert(s[i].0, v);
    assert forall|k: TypeId| m1.contains_key(k) <==> m2.contains_key(k) by {
        if m1.contains_key(k) {
            let j = choose|j: int| 0 <= j < u.len() && u[j].0 == k;
            assert(s[j].0 == k);
        }
        if m2.contains_key(k) && k != s[i].0 {
            let j = choose|j: int| 0 <= j < s.len() && s[j].0 == k;
            assert(u[j].0 == k);
        }
        if k == s[i].0 {
            assert(u[i].0 == k);
        }
    }
    assert forall|k: TypeId| m1.contains_key(k) implies m1[k] == m2[k] by {
        let j = choose|j: int| 0 <= j < u.len() && u[j].0 == k;
        assert(m1[u[j].0] == u[j].1);
        if j != i {
            assert(u[j] == s[j]);
            assert(keyed_map(s)[s[j].0] == s[j].1);
        }
    }
    assert(m1 =~= m2);
}

/// A later value stored under a key replaces the earlier one, and reading
/// a key gives what was last stored under it.
pub proof fn lemma_store_replaces<V>(m: Map<TypeId, V>, key: TypeId, first: V, second: V)
    ensures
        m.insert(key, first).insert(key, second) == m.insert(key, second),
        m.insert(key, second).contains_key(key),
        m.insert(key, second)[key] == second,
{
    assert(m.insert(key, first).insert(key, second) =~= m.insert(key, second));
}

/// The value stored under `key`, where there is one.
pub open spec fn lookup<V>(m: Map<TypeId, V>, key: TypeId) -> Option<V> {
    if m.contains_key(key) {
        Some(m[key])
    } else {
        None
    }
}

/// The value a reference points at, where there is one.
pub open spec fn deref_option<V>(r: Option<&V>) -> Option<V> {
    match r {
        Some(v) => Some(*v),
        None => None,
    }
}

/// Dependencies by type: one value per type, under the type's `TypeId`.
/// The values are kept as `V` (in use, a boxed `dyn Any`), so this store
/// does not open them.
pub struct DependencyStore<V> {
    states: Vec<(TypeId, V)>,
}

impl<V> View for DependencyStore<V> {
    type V = Map<TypeId, V>;

    closed spec fn view(&self) -> Map<TypeId, V> {
        keyed_map(self.states@)
    }
}

impl<V> DependencyStore<V> {
    #[verifier::type_invariant]
    spec fn one_per_key(self) -> bool {
        distinct_keys(self.states@)
    }

    /// An empty store.
    pub fn new() -> (r: Self)
        ensures
            r@ == Map::<TypeId, V>::empty(),
    {
        DependencyStore { states: Vec::new() }
    }

    /// Where `key` sits, if it does.
    fn position(&self, key: &TypeId) -> (r: Option<usize>)
        ensures
            r matches Some(i) ==> i < self.states@.len() && self.states@[i as int].0 == *key,
            r is None ==> forall|i: int| 0 <= i < self.states@.len() ==> self.states@[i].0 != *key,
    {
        let mut i: usize = 0;
        while i < self.states.len()
            invariant
                i <= self.states@.len(),
                forall|j: int| 0 <= j < i ==> self.states@[j].0 != *key,
            decreases self.states@.len() - i,
        {
            if same_key(&self.states[i].0, key) {
                return Some(i);
            }
            i = i + 1;
        }
        None
    }

    /// Stores `value` under `key`, replacing what was there.
    pub fn insert_keyed(&mut self, key: TypeId, value: V)
        ensures
            final(self)@ == old(self)@.insert(key, value),
    {
        proof { use_type_invariant(&*self); }
        match self.position(&key) {
            Some(i) => {
                proof {
                    lemma_keyed_map_update(self.states@, i as int, value);
                }
                let ghost before = self.states@;
                let mut states: Vec<(TypeId, V)> = Vec::new();
                std::mem::swap(&mut states, &mut self.states);
                states.set(i, (key, value));
                self.states = states;
                proof {
                    assert(self.states@ == before.update(i as int, (before[i as int].0, value)));
                }
            },
            None => {
                let ghost before = self.states@;
                let mut states: Vec<(TypeId, V)> = Vec::new();
                std::mem::swap(&mut states, &mut self.states);
                states.push((key, value));
                proof {
                    assert(states@.drop_last() =~= before);
                    assert forall|a: int, b: int| 0 <= a < b < states@.len() implies states@[a].0 != states@[b].0 by {
                        if b < before.len() {
                            assert(states@[a] == before[a] && states@[b] == before[b]);
                        } else {
                            assert(states@[a] == before[a]);
                        }
                    }
                }
                self.states = states;
            },
        }
    }

    /// The value under `key`.
    pub fn get_keyed(&self, key: &TypeId) -> (r: Option<&V>)
        ensures
            r is Some <==> self@.contains_key(*key),
            r matches Some(v) ==> *v == self@[*key],
    {
        proof {
            use_type_invariant(self);
            lemma_keyed_map(self.states@);
        }
        match self.position(key) {
            Some(i) => Some(&self.states[i].1),
            None => None,
        }
    }

    /// Stores `value` as the dependency of type `T`, replacing the one
    /// stored for `T` before.
    pub fn insert<T: ?Sized + 'static>(&mut self, value: V)
        ensures
            exists|key: TypeId| final(self)@ == old(self)@.insert(key, value),
    {
        let key = type_key::<T>();
        self.insert_keyed(key, value);
    }

    /// The dependency stored for type `T`: the value under `T`'s key
    /// (`TypeId::of::<T>()`), where there is one.
    pub fn get<T: ?Sized + 'static>(&self) -> (r: Option<&V>)
        ensures
            exists|key: TypeId| #[trigger] lookup(self@, key) == deref_option(r),
    {
        let key = type_key::<T>();
        let r = self.get_keyed(&key);
        proof {
            assert(lookup(self@, key) == deref_option(r));
        }
        r
    }
}

} // verus!
