//! The key/value store: each key holds one value, and a reverse index
//! answers which key holds a given value without scanning the store.

use vstd::prelude::*;
use vstd::hash_map::StringHashMap;
use vstd::string::*;

use crate::text::{same_text, views};

verus! {

broadcast use vstd::seq_lib::group_seq_properties, vstd::hash_map::group_hash_map_axioms;

/// The stored pairs, and for each stored value the keys that hold it.
///
/// The keys holding a value are kept as a vector used as a set (its
/// elements are exactly those keys): reverse lookup must take out one of
/// them, and vstd's string set offers no way to take out an element.
pub struct Storage {
    data: StringHashMap<String>,
    value_to_keys: StringHashMap<Vec<String>>,
}

/// The keys that hold `value` in the store `m`.
pub open spec fn keys_holding(m: Map<Seq<char>, Seq<char>>, value: Seq<char>) -> Set<Seq<char>> {
    Set::new(|k: Seq<char>| m.contains_key(k) && m[k] == value)
}

/// The stored map, with values by their views.
pub open spec fn values_of(data: Map<Seq<char>, String>) -> Map<Seq<char>, Seq<char>> {
    data.map_values(|v: String| v@)
}

/// `index` lists, for each stored value of `data`, exactly the keys that
/// hold it, and lists no other value.
pub open spec fn index_matches(data: Map<Seq<char>, String>, index: Map<Seq<char>, Vec<String>>) -> bool {
    &&& forall|v: Seq<char>| #[trigger]
        index.contains_key(v) ==> {
            &&& index[v]@.len() > 0
            &&& views(index[v]@).to_set() == keys_holding(values_of(data), v)
        }
    &&& forall|k: Seq<char>| #[trigger] data.contains_key(k) ==> index.contains_key(data[k]@)
}

/// Whether some key holds `value` in the store `m`.
pub open spec fn holds_value(m: Map<Seq<char>, Seq<char>>, value: Seq<char>) -> bool {
    exists|k: Seq<char>| m.contains_key(k) && m[k] == value
}

/// The value stored under `key`, if any.
pub open spec fn lookup(m: Map<Seq<char>, Seq<char>>, key: Seq<char>) -> Option<Seq<char>> {
    if m.contains_key(key) {
        Some(m[key])
    } else {
        None
    }
}

impl View for Storage {
    type V = Map<Seq<char>, Seq<char>>;

    /// The store as a map from keys to values.
    closed spec fn view(&self) -> Map<Seq<char>, Seq<char>> {
        values_of(self.data@)
    }
}

impl Storage {
    /// The reverse index lists, for each stored value, exactly the keys
    /// that hold it, and lists no value that no key holds.
    #[verifier::type_invariant]
    closed spec fn wf(&self) -> bool {
        index_matches(self.data@, self.value_to_keys@)
    }

    /// The key that reverse lookup answers for `value`: the first key that
    /// the index lists for it.
    pub closed spec fn chosen_key(&self, value: Seq<char>) -> Option<Seq<char>> {
        if self.value_to_keys@.contains_key(value) {
            Some(self.value_to_keys@[value]@[0]@)
        } else {
            None
        }
    }

    /// An empty store.
    pub fn new() -> (s: Self)
        ensures
            s@ == Map::<Seq<char>, Seq<char>>::empty(),
    {
        let s = Storage { data: StringHashMap::new(), value_to_keys: StringHashMap::new() };
        assert(s@ =~= Map::<Seq<char>, Seq<char>>::empty());
        s
    }

    /// The value stored under `key`.
    pub fn get(&self, key: &str) -> (r: Option<&str>)
        ensures
            match r {
                Some(v) => lookup(self@, key@) == Some(v@),
                None => lookup(self@, key@) == None::<Seq<char>>,
            },
    {
        match self.data.get(key) {
            Some(v) => Some(v.as_str()),
            None => None,
        }
    }

    /// A key that holds `value`, or `None` where no key holds it. Of
    /// several keys holding the value, any one may come back.
    pub fn get_key_by_value(&self, value: &str) -> (r: Option<&str>)
        ensures
            match r {
                Some(k) => lookup(self@, k@) == Some(value@) && self.chosen_key(value@) == Some(k@),
                None => !holds_value(self@, value@) && self.chosen_key(value@) is None,
            },
    {
        proof {
            use_type_invariant(self);
        }
        match self.value_to_keys.get(value) {
            Some(keys) => {
                let k = keys[0].as_str();
                assert(views(keys@).to_set().contains(views(keys@)[0]));
                Some(k)
            },
            None => {
                assert forall|k: Seq<char>| self@.contains_key(k) implies self@[k] != value@ by {
                    assert(self.data@.contains_key(k));
                }
                None
            },
        }
    }

    /// Stores `value` under `key`, replacing what the key held before.
    /// Reverse lookup keeps its answer for every value other than `value`
    /// and the one the key held before, and for `value` where it already
    /// had one; storing a pair that is already stored changes nothing.
    pub fn add(&mut self, key: &str, value: &str)
        ensures
            final(self)@ == old(self)@.insert(key@, value@),
            forall|w: Seq<char>|
                w != value@ && Some(w) != lookup(old(self)@, key@) ==> #[trigger] final(self).chosen_key(w)
                    == old(self).chosen_key(w),
            old(self).chosen_key(value@) is Some ==> final(self).chosen_key(value@) == old(
                self,
            ).chosen_key(value@),
            lookup(old(self)@, key@) == Some(value@) ==> final(self)@ == old(self)@ && forall|
                w: Seq<char>,
            | #[trigger] final(self).chosen_key(w) == old(self).chosen_key(w),
    {
        proof {
            use_type_invariant(&*self);
        }
        let mut taken = Storage::new();
        std::mem::swap(self, &mut taken);
        let Storage { mut data, mut value_to_keys } = taken;
        let ghost m = values_of(data@);
        let ghost m2 = m.insert(key@, value@);
        let ghost index = value_to_keys@;
        proof {
            assert forall|v: Seq<char>| #[trigger] keys_holding(m2, v) == if v == value@ {
                keys_holding(m, v).insert(key@)
            } else {
                keys_holding(m, v).remove(key@)
            } by {
                lemma_keys_holding_after_insert(m, key@, value@, v);
            }
        }
        let previous: Option<String> = match data.get(key) {
            Some(v) => Some(v.clone()),
            None => None,
        };
        data.insert(String::from_str(key), String::from_str(value));
        assert(values_of(data@) =~= m2);
        match previous {
            Some(old_value) => {
                assert(m.contains_key(key@) && m[key@] == old_value@);
                if !same_text(old_value.as_str(), value) {
                    assert(index.contains_key(old_value@));
                    let remaining = match value_to_keys.get(old_value.as_str()) {
                        Some(keys) => without_key(keys, key),
                        None => Vec::new(),
                    };
                    assert(views(remaining@).to_set() == keys_holding(m2, old_value@));
                    if remaining.len() == 0 {
                        assert(views(remaining@).to_set() =~= Set::<Seq<char>>::empty());
                        value_to_keys.remove(old_value.as_str());
                    } else {
                        value_to_keys.insert(old_value, remaining);
                    }
                } else {
                    assert(m2 =~= m);
                }
            },
            None => {
                assert forall|v: Seq<char>| #[trigger] keys_holding(m, v).contains(key@) implies false by {}
            },
        }
        let ghost mid = value_to_keys@;
        assert forall|v: Seq<char>| #[trigger] mid.contains_key(v) && v != value@ implies {
            &&& mid[v]@.len() > 0
            &&& views(mid[v]@).to_set() == keys_holding(m2, v)
        } by {
            assert(index.contains_key(v));
        }
        assert(mid.contains_key(value@) ==> views(mid[value@]@).to_set() == keys_holding(m, value@)) by {
            if mid.contains_key(value@) {
                assert(index.contains_key(value@));
            }
        }
        assert(!mid.contains_key(value@) ==> keys_holding(m, value@) =~= Set::<Seq<char>>::empty()) by {
            if !mid.contains_key(value@) {
                assert forall|k: Seq<char>| !keys_holding(m, value@).contains(k) by {
                    if m.contains_key(k) && m[k] == value@ {
                        assert(index.contains_key(value@));
                    }
                }
            }
        }
        let updated: Option<Vec<String>> = match value_to_keys.get(value) {
            Some(keys) => {
                if lists_key(keys, key) {
                    None
                } else {
                    Some(with_key(keys, key))
                }
            },
            None => {
                let mut single: Vec<String> = Vec::new();
                single.push(String::from_str(key));
                assert(views(single@) =~= seq![key@]);
                assert(seq![key@] == Seq::<Seq<char>>::empty().push(key@));
                proof { Seq::<Seq<char>>::empty().lemma_push_to_set_commute(key@); }
                assert(views(single@).to_set() =~= keys_holding(m, value@).insert(key@));
                Some(single)
            },
        };
        match updated {
            Some(keys) => {
                value_to_keys.insert(String::from_str(value), keys);
            },
            None => {},
        }
        let ghost fin = value_to_keys@;
        assert(fin.contains_key(value@));
        assert(views(fin[value@]@).to_set() == keys_holding(m2, value@));
        assert forall|v: Seq<char>| #[trigger] fin.contains_key(v) implies {
            &&& fin[v]@.len() > 0
            &&& views(fin[v]@).to_set() == keys_holding(values_of(data@), v)
        } by {
            if v != value@ {
                assert(mid.contains_key(v));
            }
        }
        assert forall|k: Seq<char>| #[trigger] data@.contains_key(k) implies fin.contains_key(
            data@[k]@,
        ) by {
            let v = data@[k]@;
            if v != value@ {
                assert(m.contains_key(k) && m[k] == v);
                assert(index.contains_key(v));
                assert(keys_holding(m2, v).contains(k));
                if !mid.contains_key(v) {
                    assert(previous is Some);
                }
            }
        }
        *self = Storage { data, value_to_keys };
    }
}

impl Default for Storage {
    /// An empty store.
    fn default() -> (s: Self)
        ensures
            s@ == Map::<Seq<char>, Seq<char>>::empty(),
    {
        Storage::new()
    }
}

/// How the keys holding a value change when `key` is set to `value`.
pub proof fn lemma_keys_holding_after_insert(
    m: Map<Seq<char>, Seq<char>>,
    key: Seq<char>,
    value: Seq<char>,
    v: Seq<char>,
)
    ensures
        keys_holding(m.insert(key, value), v) == if v == value {
            keys_holding(m, v).insert(key)
        } else {
            keys_holding(m, v).remove(key)
        },
{
    if v == value {
        assert(keys_holding(m.insert(key, value), v) =~= keys_holding(m, v).insert(key));
    } else {
        assert(keys_holding(m.insert(key, value), v) =~= keys_holding(m, v).remove(key));
    }
}

/// Whether `k` is one of `keys`.
fn lists_key(keys: &Vec<String>, k: &str) -> (r: bool)
    ensures
        r == views(keys@).to_set().contains(k@),
{
    let mut i: usize = 0;
    while i < keys.len()
        invariant
            i <= keys.len(),
            forall|j: int| 0 <= j < i ==> keys@[j]@ != k@,
        decreases keys.len() - i,
    {
        if same_text(keys[i].as_str(), k) {
            assert(views(keys@)[i as int] == k@);
            return true;
        }
        i = i + 1;
    }
    assert(!views(keys@).contains(k@));
    false
}

/// `keys` without `k`.
fn without_key(keys: &Vec<String>, k: &str) -> (r: Vec<String>)
    ensures
        views(r@).to_set() == views(keys@).to_set().remove(k@),
{
    let mut r: Vec<String> = Vec::new();
    let mut i: usize = 0;
    while i < keys.len()
        invariant
            i <= keys.len(),
            views(r@).to_set() == views(keys@.take(i as int)).to_set().remove(k@),
        decreases keys.len() - i,
    {
        let ghost x = keys@[i as int]@;
        let ghost prefix = views(keys@.take(i as int));
        assert(views(keys@.take(i + 1)) =~= prefix.push(x));
        proof { prefix.lemma_push_to_set_commute(x); }
        if !same_text(keys[i].as_str(), k) {
            let ghost before = r@;
            r.push(keys[i].clone());
            assert(views(r@) =~= views(before).push(x));
            proof { views(before).lemma_push_to_set_commute(x); }
            assert(views(r@).to_set() =~= prefix.push(x).to_set().remove(k@));
        } else {
            assert(views(r@).to_set() =~= prefix.push(x).to_set().remove(k@));
        }
        i = i + 1;
    }
    assert(keys@.take(keys@.len() as int) == keys@);
    r
}

/// `keys` with `k` added at the end.
fn with_key(keys: &Vec<String>, k: &str) -> (r: Vec<String>)
    ensures
        r@.len() > 0,
        keys@.len() > 0 ==> r@[0] == keys@[0],
        views(r@).to_set() == views(keys@).to_set().insert(k@),
{
    let mut r: Vec<String> = Vec::new();
    let mut i: usize = 0;
    while i < keys.len()
        invariant
            i <= keys.len(),
            views(r@) == views(keys@.take(i as int)),
            r@.len() == i,
            forall|j: int| 0 <= j < i ==> r@[j] == keys@[j],
        decreases keys.len() - i,
    {
        r.push(keys[i].clone());
        assert(views(keys@.take(i + 1)) =~= views(keys@.take(i as int)).push(keys@[i as int]@));
        i = i + 1;
    }
    assert(keys@.take(keys@.len() as int) == keys@);
    let ghost before = r@;
    r.push(String::from_str(k));
    assert(views(r@) =~= views(before).push(k@));
    proof { views(before).lemma_push_to_set_commute(k@); }
    r
}

} // verus!
