//! The key-value state of the store.
use vstd::prelude::*;

verus! {

#[verifier::external_type_specification]
#[verifier::external_body]
pub struct ExUuid(uuid::Uuid);

/// A fresh random (version 4) identifier, from `uuid::Uuid::new_v4`. Nothing
/// is stated of its value: it is random.
#[verifier::external_body]
fn new_id() -> uuid::Uuid {
    uuid::Uuid::new_v4()
}

/// A copy of an identifier (`Uuid` is `Copy`).
#[verifier::external_body]
fn copy_id(id: &uuid::Uuid) -> (r: uuid::Uuid)
    ensures
        r == *id,
{
    *id
}

/// A stored value with the identifier it was stored under.
#[derive(Debug)]
pub struct Entity {
    pub id: uuid::Uuid,
    pub data: Vec<u8>,
}

impl Entity {
    pub fn clone_entity(&self) -> (r: Entity)
        ensures
            r.id == self.id,
            r.data@ == self.data@,
    {
        Entity { id: copy_id(&self.id), data: self.data.clone() }
    }
}

/// No key occurs twice in `kv`.
pub open spec fn distinct_keys(kv: Seq<(String, Entity)>) -> bool {
    forall|i: int, j: int|
        0 <= i < kv.len() && 0 <= j < kv.len() && i != j ==> #[trigger] kv[i].0@ != #[trigger] kv[j].0@
}

/// The map from key to value that `kv` holds.
pub open spec fn kv_map(kv: Seq<(String, Entity)>) -> Map<Seq<char>, Seq<u8>> {
    Map::new(
        |k: Seq<char>| exists|i: int| 0 <= i < kv.len() && #[trigger] kv[i].0@ == k,
        |k: Seq<char>| kv[choose|i: int| 0 <= i < kv.len() && #[trigger] kv[i].0@ == k].1.data@,
    )
}

pub proof fn lemma_kv_map_at(kv: Seq<(String, Entity)>, i: int)
    requires
        distinct_keys(kv),
        0 <= i < kv.len(),
    ensures
        kv_map(kv).contains_key(kv[i].0@),
        kv_map(kv)[kv[i].0@] == kv[i].1.data@,
{
    let k = kv[i].0@;
    assert(kv_map(kv).dom().contains(k));
    let j = choose|j: int| 0 <= j < kv.len() && #[trigger] kv[j].0@ == k;
    assert(j == i);
}

/// The position of `key` in `kv`.
fn find(kv: &Vec<(String, Entity)>, key: &String) -> (r: Option<usize>)
    requires
        distinct_keys(kv@),
    ensures
        match r {
            Some(i) => i < kv@.len() && kv@[i as int].0@ == key@,
            None => !kv_map(kv@).contains_key(key@),
        },
{
    let mut i: usize = 0;
    while i < kv.len()
        invariant
            i <= kv@.len(),
            forall|j: int| 0 <= j < i ==> #[trigger] kv@[j].0@ != key@,
        decreases kv@.len() - i,
    {
        if kv[i].0 == *key {
            return Some(i);
        }
        i = i + 1;
    }
    None
}

/// The store: each key holds one value.
#[derive(Debug)]
pub struct Db {
    kv: Vec<(String, Entity)>,
}

impl View for Db {
    type V = Map<Seq<char>, Seq<u8>>;

    closed spec fn view(&self) -> Map<Seq<char>, Seq<u8>> {
        kv_map(self.kv@)
    }
}

impl Db {
    /// No key occurs twice in the store.
    #[verifier::type_invariant]
    spec fn keys_distinct(&self) -> bool {
        distinct_keys(self.kv@)
    }

    pub fn new() -> (db: Db)
        ensures
            db@ == Map::<Seq<char>, Seq<u8>>::empty(),
    {
        let db = Db { kv: Vec::new() };
        proof {
            assert(db@ =~= Map::<Seq<char>, Seq<u8>>::empty());
        }
        db
    }

    /// Stores `value` under `key`, in place of what it held.
    pub fn set(&mut self, key: String, value: Vec<u8>)
        ensures
            final(self)@ == old(self)@.insert(key@, value@),
    {
        proof {
            use_type_invariant(&*self);
        }
        let id = new_id();
        let mut store: Vec<(String, Entity)> = Vec::new();
        std::mem::swap(&mut store, &mut self.kv);
        let ghost old_kv = store@;
        let ghost k = key@;
        let ghost v = value@;
        let entity = Entity { id, data: value };
        match find(&store, &key) {
            Some(i) => {
                store.set(i, (key, entity));
                proof {
                    let kv = store@;
                    assert(distinct_keys(kv)) by {
                        assert forall|a: int, b: int|
                            0 <= a < kv.len() && 0 <= b < kv.len() && a != b implies #[trigger] kv[a].0@
                            != #[trigger] kv[b].0@ by {
                            if a != i && b != i {
                                assert(old_kv[a] == kv[a] && old_kv[b] == kv[b]);
                            } else if a == i {
                                assert(old_kv[b] == kv[b]);
                            } else {
                                assert(old_kv[a] == kv[a]);
                            }
                        }
                    }
                    assert forall|j: int| 0 <= j < kv.len() implies kv_map(kv).contains_key(
                        #[trigger] kv[j].0@,
                    ) && kv_map(kv)[kv[j].0@] == old_kv.update(i as int, kv[i as int])[j].1.data@ by {
                        lemma_kv_map_at(kv, j);
                    }
                    assert forall|j: int| 0 <= j < old_kv.len() && j != i implies kv_map(
                        old_kv,
                    ).contains_key(#[trigger] old_kv[j].0@) && kv_map(old_kv)[old_kv[j].0@]
                        == old_kv[j].1.data@ by {
                        lemma_kv_map_at(old_kv, j);
                    }
                    assert(kv_map(kv) =~= kv_map(old_kv).insert(k, v)) by {
                        assert forall|key2: Seq<char>|
                            #![auto]
                            kv_map(kv).contains_key(key2) implies kv_map(old_kv).insert(
                                k,
                                v,
                            ).contains_key(key2) && kv_map(kv)[key2] == kv_map(old_kv).insert(
                                k,
                                v,
                            )[key2] by {
                            let j = choose|j: int| 0 <= j < kv.len() && #[trigger] kv[j].0@ == key2;
                            lemma_kv_map_at(kv, j);
                            if j != i {
                                lemma_kv_map_at(old_kv, j);
                            }
                        }
                        assert forall|key2: Seq<char>|
                            #![auto]
                            kv_map(old_kv).insert(k, v).contains_key(key2) implies kv_map(
                                kv,
                            ).contains_key(key2) by {
                            if key2 != k {
                                let j = choose|j: int|
                                    0 <= j < old_kv.len() && #[trigger] old_kv[j].0@ == key2;
                                assert(kv[j].0@ == key2);
                            } else {
                                assert(kv[i as int].0@ == k);
                            }
                        }
                    }
                }
            },
            None => {
                store.push((key, entity));
                proof {
                    let kv = store@;
                    let n = old_kv.len() as int;
                    assert(distinct_keys(kv)) by {
                        assert forall|a: int, b: int|
                            0 <= a < kv.len() && 0 <= b < kv.len() && a != b implies #[trigger] kv[a].0@
                            != #[trigger] kv[b].0@ by {
                            if a != n && b != n {
                                assert(old_kv[a] == kv[a] && old_kv[b] == kv[b]);
                            } else if a == n {
                                assert(old_kv[b] == kv[b]);
                                assert(kv_map(old_kv).contains_key(old_kv[b].0@));
                            } else {
                                assert(old_kv[a] == kv[a]);
                                assert(kv_map(old_kv).contains_key(old_kv[a].0@));
                            }
                        }
                    }
                    assert(kv_map(kv) =~= kv_map(old_kv).insert(k, v)) by {
                        assert forall|key2: Seq<char>|
                            #![auto]
                            kv_map(kv).contains_key(key2) implies kv_map(old_kv).insert(
                                k,
                                v,
                            ).contains_key(key2) && kv_map(kv)[key2] == kv_map(old_kv).insert(
                                k,
                                v,
                            )[key2] by {
                            let j = choose|j: int| 0 <= j < kv.len() && #[trigger] kv[j].0@ == key2;
                            lemma_kv_map_at(kv, j);
                            if j != n {
                                assert(old_kv[j] == kv[j]);
                                lemma_kv_map_at(old_kv, j);
                            }
                        }
                        assert forall|key2: Seq<char>|
                            #![auto]
                            kv_map(old_kv).insert(k, v).contains_key(key2) implies kv_map(
                                kv,
                            ).contains_key(key2) by {
                            if key2 != k {
                                let j = choose|j: int|
                                    0 <= j < old_kv.len() && #[trigger] old_kv[j].0@ == key2;
                                assert(kv[j].0@ == key2);
                            } else {
                                assert(kv[n].0@ == k);
                            }
                        }
                    }
                }
            },
        }
        self.kv = store;
    }

    /// The value stored under `key`, if any.
    pub fn get(&self, key: &str) -> (r: Option<Vec<u8>>)
        ensures
            match r {
                Some(v) => self@.contains_key(key@) && v@ == self@[key@],
                None => !self@.contains_key(key@),
            },
    {
        proof {
            use_type_invariant(self);
        }
        let k = key.to_string();
        proof {
            broadcast use vstd::string::to_string_from_display_ensures_for_str;
        }
        match find(&self.kv, &k) {
            Some(i) => {
                proof {
                    lemma_kv_map_at(self.kv@, i as int);
                }
                Some(self.kv[i].1.data.clone())
            },
            None => None,
        }
    }

    /// A copy of every key with its entity.
    pub fn snap(&self) -> (r: Vec<(String, Entity)>)
        ensures
            distinct_keys(r@),
            kv_map(r@) == self@,
            r@.len() == self@.len(),
    {
        proof {
            use_type_invariant(self);
        }
        let mut out: Vec<(String, Entity)> = Vec::new();
        let mut i: usize = 0;
        while i < self.kv.len()
            invariant
                i <= self.kv@.len(),
                out@.len() == i,
                forall|j: int|
                    0 <= j < i ==> (#[trigger] out@[j]).0@ == self.kv@[j].0@ && out@[j].1.data@
                        == self.kv@[j].1.data@,
            decreases self.kv@.len() - i,
        {
            let e = &self.kv[i];
            out.push((e.0.clone(), e.1.clone_entity()));
            i = i + 1;
        }
        proof {
            let kv = self.kv@;
            assert(distinct_keys(out@));
            assert forall|j: int| 0 <= j < kv.len() implies kv_map(kv).contains_key(
                #[trigger] kv[j].0@,
            ) && kv_map(out@).contains_key(kv[j].0@) && kv_map(out@)[kv[j].0@] == kv_map(
                kv,
            )[kv[j].0@] by {
                lemma_kv_map_at(kv, j);
                lemma_kv_map_at(out@, j);
            }
            assert(kv_map(out@) =~= kv_map(kv)) by {
                assert forall|key2: Seq<char>|
                    #![auto]
                    kv_map(out@).contains_key(key2) implies kv_map(kv).contains_key(key2) by {
                    let j = choose|j: int| 0 <= j < out@.len() && #[trigger] out@[j].0@ == key2;
                    assert(kv[j].0@ == key2);
                }
            }
            lemma_kv_map_len(kv);
        }
        out
    }
}

pub proof fn lemma_kv_map_len(kv: Seq<(String, Entity)>)
    requires
        distinct_keys(kv),
    ensures
        kv_map(kv).len() == kv.len(),
        kv_map(kv).dom().finite(),
    decreases kv.len(),
{
    let m = kv_map(kv);
    if kv.len() == 0 {
        assert(m.dom() =~= Set::<Seq<char>>::empty());
    } else {
        let n = kv.len() - 1;
        let init = kv.subrange(0, n);
        assert(distinct_keys(init));
        lemma_kv_map_len(init);
        let k = kv[n].0@;
        assert(m.dom() =~= kv_map(init).dom().insert(k)) by {
            assert forall|key2: Seq<char>| #![auto] m.dom().contains(key2) implies kv_map(
                init,
            ).dom().insert(k).contains(key2) by {
                let j = choose|j: int| 0 <= j < kv.len() && #[trigger] kv[j].0@ == key2;
                if j != n {
                    assert(init[j].0@ == key2);
                }
            }
            assert forall|key2: Seq<char>| #![auto] kv_map(init).dom().insert(k).contains(key2) implies m.dom().contains(key2) by {
                if key2 != k {
                    let j = choose|j: int| 0 <= j < init.len() && #[trigger] init[j].0@ == key2;
                    assert(kv[j].0@ == key2);
                } else {
                    assert(kv[n].0@ == k);
                }
            }
        }
        assert(!kv_map(init).dom().contains(k)) by {
            if kv_map(init).dom().contains(k) {
                let j = choose|j: int| 0 <= j < init.len() && #[trigger] init[j].0@ == k;
                assert(kv[j].0@ == kv[n].0@);
            }
        }
    }
}

} // verus!
