//! The extra parameters of a command (`key = "value"` pairs of the configuration),
//! held as a list of pairs.
use vstd::prelude::*;

use crate::chars::{chars_eq, string_seqs, to_chars};
use crate::order::{sorted_texts, text_order};

verus! {

/// The extra parameters of a command, as `(key, value)` pairs.
pub struct Extra {
    pub entries: Vec<(String, String)>,
}

/// The pairs of an [`Extra`] as character sequences.
pub open spec fn pair_seqs(v: Seq<(String, String)>) -> Seq<(Seq<char>, Seq<char>)> {
    v.map_values(|p: (String, String)| (p.0@, p.1@))
}

impl View for Extra {
    type V = Seq<(Seq<char>, Seq<char>)>;

    open spec fn view(&self) -> Seq<(Seq<char>, Seq<char>)> {
        pair_seqs(self.entries@)
    }
}

/// The value of `key` in the pairs: that of the first pair with that key.
pub open spec fn lookup(pairs: Seq<(Seq<char>, Seq<char>)>, key: Seq<char>) -> Option<Seq<char>>
    decreases pairs.len(),
{
    if pairs.len() == 0 {
        None
    } else if pairs[0].0 == key {
        Some(pairs[0].1)
    } else {
        lookup(pairs.drop_first(), key)
    }
}

/// No key occurs twice.
pub open spec fn keys_unique(pairs: Seq<(Seq<char>, Seq<char>)>) -> bool {
    forall|i: int, j: int| 0 <= i < j < pairs.len() ==> pairs[i].0 != pairs[j].0
}

/// Whether `i` is the position of the first pair with key `key`.
pub open spec fn is_first_index<V>(pairs: Seq<(Seq<char>, V)>, key: Seq<char>, i: int) -> bool {
    &&& 0 <= i < pairs.len()
    &&& pairs[i].0 == key
    &&& forall|j: int| 0 <= j < i ==> pairs[j].0 != key
}

/// The position of the first pair with key `key`.
pub open spec fn first_index<V>(pairs: Seq<(Seq<char>, V)>, key: Seq<char>) -> Option<int> {
    if exists|i: int| is_first_index(pairs, key, i) {
        Some(choose|i: int| is_first_index(pairs, key, i))
    } else {
        None
    }
}

/// The first position of a key is unique.
pub proof fn lemma_first_index<V>(pairs: Seq<(Seq<char>, V)>, key: Seq<char>, i: int)
    requires
        is_first_index(pairs, key, i),
    ensures
        first_index(pairs, key) == Some(i),
{
    let k = choose|k: int| is_first_index(pairs, key, k);
    assert(is_first_index(pairs, key, k));
    if k < i {
        assert(pairs[k].0 != key);
    } else if i < k {
        assert(pairs[i].0 != key);
    }
}

/// A key absent from the pairs has no first position.
pub proof fn lemma_first_index_none<V>(pairs: Seq<(Seq<char>, V)>, key: Seq<char>)
    requires
        forall|j: int| 0 <= j < pairs.len() ==> pairs[j].0 != key,
    ensures
        first_index(pairs, key) is None,
{
    if exists|i: int| is_first_index(pairs, key, i) {
        let k = choose|k: int| is_first_index(pairs, key, k);
        assert(pairs[k].0 != key);
    }
}

/// The pairs with `key` set to `value`: the first pair with that key gets the value,
/// or the pair is added at the end.
pub open spec fn inserted(pairs: Seq<(Seq<char>, Seq<char>)>, key: Seq<char>, value: Seq<char>) -> Seq<
    (Seq<char>, Seq<char>),
> {
    match first_index(pairs, key) {
        Some(i) => pairs.update(i, (key, value)),
        None => pairs.push((key, value)),
    }
}

/// The pairs without those with key `key`.
pub open spec fn without_key(pairs: Seq<(Seq<char>, Seq<char>)>, key: Seq<char>) -> Seq<
    (Seq<char>, Seq<char>),
>
    decreases pairs.len(),
{
    if pairs.len() == 0 {
        seq![]
    } else if pairs.last().0 == key {
        without_key(pairs.drop_last(), key)
    } else {
        without_key(pairs.drop_last(), key).push(pairs.last())
    }
}

/// The keys of the pairs, in order.
pub open spec fn keys_of(pairs: Seq<(Seq<char>, Seq<char>)>) -> Seq<Seq<char>> {
    pairs.map_values(|p: (Seq<char>, Seq<char>)| p.0)
}

proof fn lemma_lookup_skip(pairs: Seq<(Seq<char>, Seq<char>)>, key: Seq<char>, i: int)
    requires
        0 <= i < pairs.len(),
        pairs[i].0 != key,
    ensures
        lookup(pairs.skip(i), key) == lookup(pairs.skip(i + 1), key),
{
    assert(pairs.skip(i).drop_first() =~= pairs.skip(i + 1));
}

impl Extra {
    /// An empty set of parameters.
    pub fn new() -> (r: Extra)
        ensures
            r@.len() == 0,
    {
        Extra { entries: Vec::new() }
    }

    /// Sets `key` to `value`: replaces the value of the first pair with that key, or
    /// adds a pair at the end.
    pub fn insert(&mut self, key: String, value: String)
        ensures
            final(self)@ == inserted(old(self)@, key@, value@),
            lookup(final(self)@, key@) == Some(value@),
            forall|k: Seq<char>| k != key@ ==> lookup(final(self)@, k) == lookup(old(self)@, k),
            keys_unique(old(self)@) ==> keys_unique(final(self)@),
    {
        let ghost pairs = self@;
        let pos = self.position(key.as_str());
        if let Some(i) = pos {
            proof {
                lemma_first_index(pairs, key@, i as int);
            }
            self.entries.set(i, (key, value));
            let ghost np = self@;
            assert(np =~= pairs.update(i as int, (key@, value@)));
            proof {
                lemma_lookup_update(pairs, i as int, key@, value@);
            }
        } else {
            proof {
                lemma_first_index_none(pairs, key@);
            }
            self.entries.push((key, value));
            let ghost np = self@;
            assert(np =~= pairs.push((key@, value@)));
            proof {
                lemma_lookup_push(pairs, key@, value@);
            }
        }
    }

    /// Removes every pair with key `key`.
    pub fn remove(&mut self, key: &str)
        ensures
            final(self)@ == without_key(old(self)@, key@),
            lookup(final(self)@, key@) is None,
            forall|k: Seq<char>| k != key@ ==> lookup(final(self)@, k) == lookup(old(self)@, k),
            keys_unique(old(self)@) ==> keys_unique(final(self)@),
    {
        let ghost pairs = self@;
        let kc = to_chars(key);
        let mut kept: Vec<(String, String)> = Vec::new();
        let mut i: usize = 0;
        while i < self.entries.len()
            invariant
                i <= self.entries@.len(),
                pairs == self@,
                kc@ == key@,
                pair_seqs(kept@) == without_key(pairs.take(i as int), key@),
            decreases self.entries@.len() - i,
        {
            assert(pairs.take(i + 1).drop_last() =~= pairs.take(i as int));
            assert(pairs.take(i + 1).last() == pairs[i as int]);
            assert(pairs[i as int] == (self.entries@[i as int].0@, self.entries@[i as int].1@));
            if !chars_eq(&to_chars(self.entries[i].0.as_str()), &kc) {
                let ghost prev = kept@;
                let k = self.entries[i].0.clone();
                let v = self.entries[i].1.clone();
                kept.push((k, v));
                assert(pair_seqs(kept@) =~= pair_seqs(prev).push(pairs[i as int]));
            }
            i += 1;
        }
        assert(pairs.take(i as int) =~= pairs);
        self.entries = kept;
        proof {
            lemma_without_key(pairs, key@);
        }
    }

    /// The keys, sorted into ascending order.
    pub fn sorted_keys(&self) -> (r: Vec<String>)
        ensures
            string_seqs(r@) == keys_of(self@).sort_by(text_order()),
    {
        let mut keys: Vec<String> = Vec::new();
        let mut i: usize = 0;
        while i < self.entries.len()
            invariant
                i <= self.entries@.len(),
                string_seqs(keys@) == keys_of(self@).take(i as int),
            decreases self.entries@.len() - i,
        {
            let ghost prev = keys@;
            assert(keys_of(self@)[i as int] == self.entries@[i as int].0@);
            let k = self.entries[i].0.clone();
            keys.push(k);
            assert(string_seqs(keys@) =~= string_seqs(prev).push(k@));
            assert(string_seqs(keys@) =~= keys_of(self@).take(i + 1));
            i += 1;
        }
        assert(keys_of(self@).take(i as int) =~= keys_of(self@));
        sorted_texts(&keys)
    }

    /// The position of the first pair with key `key`.
    fn position(&self, key: &str) -> (r: Option<usize>)
        ensures
            match r {
                Some(i) => i < self@.len() && self@[i as int].0 == key@ && forall|j: int|
                    0 <= j < i ==> self@[j].0 != key@,
                None => forall|j: int| 0 <= j < self@.len() ==> self@[j].0 != key@,
            },
    {
        let kc = to_chars(key);
        let mut i: usize = 0;
        while i < self.entries.len()
            invariant
                i <= self.entries@.len(),
                kc@ == key@,
                forall|j: int| 0 <= j < i ==> self@[j].0 != key@,
            decreases self.entries@.len() - i,
        {
            let kk = to_chars(self.entries[i].0.as_str());
            assert(self@[i as int].0 == self.entries@[i as int].0@);
            if chars_eq(&kk, &kc) {
                return Some(i);
            }
            i += 1;
        }
        None
    }

    /// The value of `key` (see [`lookup`]).
    pub fn get(&self, key: &str) -> (r: Option<&String>)
        ensures
            match r {
                Some(v) => lookup(self@, key@) == Some(v@),
                None => lookup(self@, key@) is None,
            },
    {
        let kc = to_chars(key);
        let ghost pairs = self@;
        let mut i: usize = 0;
        assert(pairs.skip(0) =~= pairs);
        while i < self.entries.len()
            invariant
                i <= self.entries@.len(),
                pairs == self@,
                kc@ == key@,
                lookup(pairs, key@) == lookup(pairs.skip(i as int), key@),
            decreases self.entries@.len() - i,
        {
            let kk = to_chars(self.entries[i].0.as_str());
            assert(pairs[i as int] == (self.entries@[i as int].0@, self.entries@[i as int].1@));
            if chars_eq(&kk, &kc) {
                assert(pairs.skip(i as int)[0] == pairs[i as int]);
                return Some(&self.entries[i].1);
            }
            proof {
                lemma_lookup_skip(pairs, key@, i as int);
            }
            i += 1;
        }
        None
    }
}

proof fn lemma_lookup_update(pairs: Seq<(Seq<char>, Seq<char>)>, i: int, key: Seq<char>, value: Seq<char>)
    requires
        0 <= i < pairs.len(),
        pairs[i].0 == key,
        forall|j: int| 0 <= j < i ==> pairs[j].0 != key,
    ensures
        lookup(pairs.update(i, (key, value)), key) == Some(value),
        forall|k: Seq<char>| k != key ==> lookup(pairs.update(i, (key, value)), k) == lookup(pairs, k),
        keys_unique(pairs) ==> keys_unique(pairs.update(i, (key, value))),
    decreases i,
{
    let np = pairs.update(i, (key, value));
    if i > 0 {
        assert(np.drop_first() =~= pairs.drop_first().update(i - 1, (key, value)));
        lemma_lookup_update(pairs.drop_first(), i - 1, key, value);
    }
    assert forall|k: Seq<char>| k != key implies lookup(np, k) == lookup(pairs, k) by {
        if i == 0 {
            assert(np.drop_first() =~= pairs.drop_first());
            assert(np[0].0 == key);
            assert(lookup(np, k) == lookup(np.drop_first(), k));
            assert(pairs[0].0 == key);
            assert(lookup(pairs, k) == lookup(pairs.drop_first(), k));
        } else {
            assert(np[0] == pairs[0]);
            if pairs[0].0 != k {
                assert(lookup(np, k) == lookup(np.drop_first(), k));
                assert(lookup(pairs, k) == lookup(pairs.drop_first(), k));
            }
        }
    }
}

proof fn lemma_lookup_push(pairs: Seq<(Seq<char>, Seq<char>)>, key: Seq<char>, value: Seq<char>)
    requires
        forall|j: int| 0 <= j < pairs.len() ==> pairs[j].0 != key,
    ensures
        lookup(pairs.push((key, value)), key) == Some(value),
        forall|k: Seq<char>| k != key ==> lookup(pairs.push((key, value)), k) == lookup(pairs, k),
        keys_unique(pairs) ==> keys_unique(pairs.push((key, value))),
    decreases pairs.len(),
{
    let np = pairs.push((key, value));
    if pairs.len() > 0 {
        assert(np.drop_first() =~= pairs.drop_first().push((key, value)));
        lemma_lookup_push(pairs.drop_first(), key, value);
        assert(np[0] == pairs[0]);
        assert forall|k: Seq<char>| k != key implies lookup(np, k) == lookup(pairs, k) by {
            if pairs[0].0 != k {
                assert(lookup(np, k) == lookup(np.drop_first(), k));
                assert(lookup(pairs, k) == lookup(pairs.drop_first(), k));
            }
        }
    } else {
        assert(np.drop_first() =~= pairs);
        assert(np[0].0 == key);
        assert forall|k: Seq<char>| k != key implies lookup(np, k) == lookup(pairs, k) by {
            assert(lookup(np, k) == lookup(np.drop_first(), k));
        }
    }
}


proof fn lemma_without_key(pairs: Seq<(Seq<char>, Seq<char>)>, key: Seq<char>)
    ensures
        lookup(without_key(pairs, key), key) is None,
        forall|k: Seq<char>| k != key ==> lookup(without_key(pairs, key), k) == lookup(pairs, k),
        keys_unique(pairs) ==> keys_unique(without_key(pairs, key)),
        forall|p: (Seq<char>, Seq<char>)| without_key(pairs, key).contains(p) ==> pairs.contains(p),
    decreases pairs.len(),
{
    if pairs.len() > 0 {
        let prev = pairs.drop_last();
        lemma_without_key(prev, key);
        lemma_lookup_append(prev, pairs.last());
        assert(pairs =~= prev.push(pairs.last()));
        let w = without_key(prev, key);
        if pairs.last().0 != key {
            lemma_lookup_append(w, pairs.last());
            assert forall|p: (Seq<char>, Seq<char>)| w.push(pairs.last()).contains(p) implies pairs.contains(p) by {
                let j = choose|j: int| 0 <= j < w.push(pairs.last()).len() && w.push(pairs.last())[j] == p;
                if j < w.len() {
                    assert(w[j] == p);
                    assert(w.contains(p));
                    assert(prev.contains(p));
                    let m = choose|m: int| 0 <= m < prev.len() && prev[m] == p;
                    assert(pairs[m] == prev[m]);
                } else {
                    assert(p == pairs.last());
                    assert(pairs[pairs.len() - 1] == p);
                }
            }
            if keys_unique(pairs) {
                assert forall|i: int, j: int| 0 <= i < j < w.push(pairs.last()).len() implies w.push(
                    pairs.last(),
                )[i].0 != w.push(pairs.last())[j].0 by {
                    if j == w.len() {
                        assert(w.contains(w[i]));
                        assert(prev.contains(w[i]));
                        let m = choose|m: int| 0 <= m < prev.len() && prev[m] == w[i];
                        assert(pairs[m] == w[i]);
                        assert(pairs[pairs.len() - 1] == pairs.last());
                    }
                }
            }
        } else {
            assert forall|p: (Seq<char>, Seq<char>)| w.contains(p) implies pairs.contains(p) by {
                assert(prev.contains(p));
                let m = choose|m: int| 0 <= m < prev.len() && prev[m] == p;
                assert(pairs[m] == p);
            }
        }
    }
}

proof fn lemma_lookup_append(pairs: Seq<(Seq<char>, Seq<char>)>, p: (Seq<char>, Seq<char>))
    ensures
        forall|k: Seq<char>| lookup(pairs.push(p), k) == match lookup(pairs, k) {
            Some(v) => Some(v),
            None => if p.0 == k {
                Some(p.1)
            } else {
                None
            },
        },
    decreases pairs.len(),
{
    if pairs.len() > 0 {
        lemma_lookup_append(pairs.drop_first(), p);
        assert(pairs.push(p).drop_first() =~= pairs.drop_first().push(p));
        assert(pairs.push(p)[0] == pairs[0]);
        assert forall|k: Seq<char>| lookup(pairs.push(p), k) == match lookup(pairs, k) {
            Some(v) => Some(v),
            None => if p.0 == k {
                Some(p.1)
            } else {
                None
            },
        } by {
            if pairs[0].0 != k {
                assert(lookup(pairs.push(p), k) == lookup(pairs.drop_first().push(p), k));
                assert(lookup(pairs, k) == lookup(pairs.drop_first(), k));
            }
        }
    } else {
        assert(pairs.push(p).drop_first() =~= pairs);
        assert(pairs.push(p)[0] == p);
        assert forall|k: Seq<char>| lookup(pairs.push(p), k) == match lookup(pairs, k) {
            Some(v) => Some(v),
            None => if p.0 == k {
                Some(p.1)
            } else {
                None
            },
        } by {
            if p.0 != k {
                assert(lookup(pairs.push(p), k) == lookup(pairs.push(p).drop_first(), k));
            }
        }
    }
}


/// Reading a key after setting it gives the value set; the other keys read as before.
pub proof fn lemma_inserted_lookup(pairs: Seq<(Seq<char>, Seq<char>)>, key: Seq<char>, value: Seq<char>)
    ensures
        lookup(inserted(pairs, key, value), key) == Some(value),
        forall|k: Seq<char>| k != key ==> lookup(inserted(pairs, key, value), k) == lookup(pairs, k),
{
    match first_index(pairs, key) {
        Some(i) => {
            let k = choose|k: int| is_first_index(pairs, key, k);
            assert(is_first_index(pairs, key, k));
            lemma_lookup_update(pairs, i, key, value);
        },
        None => {
            assert forall|j: int| 0 <= j < pairs.len() implies pairs[j].0 != key by {
                if pairs[j].0 == key {
                    lemma_first_exists(pairs, key, j);
                }
            }
            lemma_lookup_push(pairs, key, value);
        },
    }
}

/// Reading a key after removing it gives nothing; the other keys read as before.
pub proof fn lemma_removed_lookup(pairs: Seq<(Seq<char>, Seq<char>)>, key: Seq<char>)
    ensures
        lookup(without_key(pairs, key), key) is None,
        forall|k: Seq<char>| k != key ==> lookup(without_key(pairs, key), k) == lookup(pairs, k),
{
    lemma_without_key(pairs, key);
}

proof fn lemma_first_exists(pairs: Seq<(Seq<char>, Seq<char>)>, key: Seq<char>, j: int)
    requires
        0 <= j < pairs.len(),
        pairs[j].0 == key,
    ensures
        first_index(pairs, key) is Some,
    decreases j,
{
    if exists|m: int| 0 <= m < j && pairs[m].0 == key {
        let m = choose|m: int| 0 <= m < j && pairs[m].0 == key;
        lemma_first_exists(pairs, key, m);
    } else {
        assert(is_first_index(pairs, key, j));
    }
}
} // verus!
