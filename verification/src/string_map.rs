//! A small map from text keys to text values, kept as a list of pairs with
//! distinct keys.
use vstd::prelude::*;
use crate::text::same_text;

verus! {

broadcast use vstd::map::group_map_axioms, vstd::set::group_set_axioms;

/// A map from text keys to text values.
#[derive(Debug)]
pub struct StringMap {
    pairs: Vec<(String, String)>,
}

/// The map that a list of pairs denotes: later pairs win over earlier ones.
pub open spec fn map_of(s: Seq<(String, String)>) -> Map<Seq<char>, Seq<char>>
    decreases s.len(),
{
    if s.len() == 0 {
        Map::empty()
    } else {
        map_of(s.drop_last()).insert(s.last().0@, s.last().1@)
    }
}

/// No two pairs of the list have the same key.
pub open spec fn distinct_keys(s: Seq<(String, String)>) -> bool {
    forall|i: int, j: int| 0 <= i < j < s.len() ==> (#[trigger] s[i]).0@ != (#[trigger] s[j]).0@
}

/// The keys and values of a list of pairs with distinct keys.
pub proof fn lemma_map_of(s: Seq<(String, String)>)
    requires
        distinct_keys(s),
    ensures
        map_of(s).dom().finite(),
        map_of(s).len() == s.len(),
        forall|k: Seq<char>|
            #![trigger map_of(s).contains_key(k)]
            map_of(s).contains_key(k) <==> exists|i: int| 0 <= i < s.len() && (#[trigger] s[i]).0@
                == k,
        forall|i: int| 0 <= i < s.len() ==> map_of(s)[(#[trigger] s[i]).0@] == s[i].1@,
    decreases s.len(),
{
    if s.len() > 0 {
        let t = s.drop_last();
        assert(distinct_keys(t)) by {
            assert forall|i: int, j: int| 0 <= i < j < t.len() implies (#[trigger] t[i]).0@ != (
            #[trigger] t[j]).0@ by {
                assert(t[i] == s[i] && t[j] == s[j]);
            }
        }
        lemma_map_of(t);
        let k = s.last().0@;
        assert(!map_of(t).contains_key(k)) by {
            if map_of(t).contains_key(k) {
                let i = choose|i: int| 0 <= i < t.len() && (#[trigger] t[i]).0@ == k;
                assert(s[i] == t[i]);
            }
        }
        assert forall|key: Seq<char>| #![trigger map_of(s).contains_key(key)]
            map_of(s).contains_key(key) <==> exists|i: int| 0 <= i < s.len() && (
            #[trigger] s[i]).0@ == key by {
            if map_of(s).contains_key(key) && key != k {
                let i = choose|i: int| 0 <= i < t.len() && (#[trigger] t[i]).0@ == key;
                assert(s[i] == t[i]);
            }
            if exists|i: int| 0 <= i < s.len() && (#[trigger] s[i]).0@ == key {
                let i = choose|i: int| 0 <= i < s.len() && (#[trigger] s[i]).0@ == key;
                if i < s.len() - 1 {
                    assert(s[i] == t[i]);
                }
            }
        }
        assert forall|i: int| 0 <= i < s.len() implies map_of(s)[(#[trigger] s[i]).0@]
            == s[i].1@ by {
            if i < s.len() - 1 {
                assert(s[i] == t[i]);
            }
        }
    }
}

impl View for StringMap {
    type V = Map<Seq<char>, Seq<char>>;

    closed spec fn view(&self) -> Map<Seq<char>, Seq<char>> {
        map_of(self.pairs@)
    }
}

impl StringMap {
    /// The keys of the map are distinct.
    #[verifier::type_invariant]
    spec fn inv(self) -> bool {
        distinct_keys(self.pairs@)
    }

    /// The stored pairs.
    pub closed spec fn pair_list(self) -> Seq<(String, String)> {
        self.pairs@
    }

    /// An empty map.
    pub fn new() -> (r: Self)
        ensures
            r@ == Map::<Seq<char>, Seq<char>>::empty(),
            r.pair_list().len() == 0,
    {
        StringMap { pairs: Vec::new() }
    }

    /// The position of the pair whose key is `key`.
    fn position(&self, key: &str) -> (r: Option<usize>)
        ensures
            r matches Some(i) ==> i < self.pairs@.len() && self.pairs@[i as int].0@ == key@,
            r is None ==> forall|i: int| 0 <= i < self.pairs@.len() ==> self.pairs@[i].0@ != key@,
    {
        let mut i: usize = 0;
        while i < self.pairs.len()
            invariant
                i <= self.pairs@.len(),
                forall|k: int| 0 <= k < i ==> self.pairs@[k].0@ != key@,
            decreases self.pairs@.len() - i,
        {
            if same_text(self.pairs[i].0.as_str(), key) {
                return Some(i);
            }
            i = i + 1;
        }
        None
    }

    /// The value stored under `key`, if any.
    pub fn get(&self, key: &str) -> (r: Option<&String>)
        ensures
            r matches Some(v) ==> self@.contains_key(key@) && v@ == self@[key@],
            r is None ==> !self@.contains_key(key@),
    {
        proof {
            use_type_invariant(self);
            lemma_map_of(self.pairs@);
        }
        match self.position(key) {
            Some(i) => Some(&self.pairs[i].1),
            None => None,
        }
    }

    /// Whether a value is stored under `key`.
    pub fn contains_key(&self, key: &str) -> (r: bool)
        ensures
            r == self@.contains_key(key@),
    {
        proof {
            use_type_invariant(self);
            lemma_map_of(self.pairs@);
        }
        self.position(key).is_some()
    }

    /// The number of keys.
    pub fn len(&self) -> (r: usize)
        ensures
            r == self@.len(),
            r == self.pair_list().len(),
    {
        proof {
            use_type_invariant(self);
            lemma_map_of(self.pairs@);
        }
        self.pairs.len()
    }

    /// Whether the map holds no key.
    pub fn is_empty(&self) -> (r: bool)
        ensures
            r == (self@.len() == 0),
    {
        self.len() == 0
    }

    /// Stores `value` under `key`, replacing and returning what was stored
    /// there before.
    pub fn insert(&mut self, key: String, value: String) -> (r: Option<String>)
        ensures
            final(self)@ == old(self)@.insert(key@, value@),
            r matches Some(v) ==> old(self)@.contains_key(key@) && v@ == old(self)@[key@],
            r is None ==> !old(self)@.contains_key(key@),
    {
        proof {
            use_type_invariant(&*self);
            lemma_map_of(self.pairs@);
        }
        let ghost old_pairs = self.pairs@;
        let ghost k = key@;
        let ghost v = value@;
        match self.position(key.as_str()) {
            Some(i) => {
                let mut pairs: Vec<(String, String)> = Vec::new();
                std::mem::swap(&mut pairs, &mut self.pairs);
                let (_, old_value) = pairs.remove(i);
                pairs.push((key, value));
                proof {
                    let s = pairs@;
                    assert(distinct_keys(s)) by {
                        assert forall|a: int, b: int| 0 <= a < b < s.len() implies (
                        #[trigger] s[a]).0@ != (#[trigger] s[b]).0@ by {
                            if b == s.len() - 1 {
                                if a < i {
                                    assert(s[a] == old_pairs[a]);
                                } else {
                                    assert(s[a] == old_pairs[a + 1]);
                                }
                            } else {
                                let oa = if a < i { a } else { a + 1 };
                                let ob = if b < i { b } else { b + 1 };
                                assert(s[a] == old_pairs[oa] && s[b] == old_pairs[ob]);
                            }
                        }
                    }
                    lemma_map_of(s);
                    assert(map_of(s) =~= map_of(old_pairs).insert(k, v)) by {
                        assert forall|key2: Seq<char>| #[trigger]
                            map_of(s).contains_key(key2) == map_of(old_pairs).insert(
                                k,
                                v,
                            ).contains_key(key2) by {
                            if map_of(old_pairs).contains_key(key2) && key2 != k {
                                let j = choose|j: int|
                                    0 <= j < old_pairs.len() && (#[trigger] old_pairs[j]).0@
                                        == key2;
                                let sj = if j < i { j } else { j - 1 };
                                assert(s[sj] == old_pairs[j]);
                            }
                            if map_of(s).contains_key(key2) && key2 != k {
                                let j = choose|j: int| 0 <= j < s.len() && (#[trigger] s[j]).0@
                                    == key2;
                                let oj = if j < i { j } else { j + 1 };
                                assert(s[j] == old_pairs[oj]);
                            }
                        }
                        assert forall|key2: Seq<char>| #[trigger]
                            map_of(s).contains_key(key2) implies map_of(s)[key2] == map_of(
                            old_pairs,
                        ).insert(k, v)[key2] by {
                            let j = choose|j: int| 0 <= j < s.len() && (#[trigger] s[j]).0@
                                == key2;
                            if j < s.len() - 1 {
                                let oj = if j < i { j } else { j + 1 };
                                assert(s[j] == old_pairs[oj]);
                            }
                        }
                    }
                }
                self.pairs = pairs;
                Some(old_value)
            },
            None => {
                let mut pairs: Vec<(String, String)> = Vec::new();
                std::mem::swap(&mut pairs, &mut self.pairs);
                pairs.push((key, value));
                proof {
                    let s = pairs@;
                    assert(s.drop_last() =~= old_pairs);
                    assert(distinct_keys(s)) by {
                        assert forall|a: int, b: int| 0 <= a < b < s.len() implies (
                        #[trigger] s[a]).0@ != (#[trigger] s[b]).0@ by {
                            assert(s[a] == old_pairs[a]);
                            if b < s.len() - 1 {
                                assert(s[b] == old_pairs[b]);
                            }
                        }
                    }
                }
                self.pairs = pairs;
                None
            },
        }
    }

    /// The stored pairs, each key once.
    pub fn pairs(&self) -> (r: &[(String, String)])
        ensures
            r@ == self.pair_list(),
            distinct_keys(self.pair_list()),
            map_of(self.pair_list()) == self@,
            r@.len() == self@.len(),
            forall|i: int|
                0 <= i < r@.len() ==> self@.contains_key((#[trigger] r@[i]).0@) && self@[r@[i].0@]
                    == r@[i].1@,
    {
        proof {
            use_type_invariant(self);
            lemma_map_of(self.pairs@);
        }
        self.pairs.as_slice()
    }

    /// A copy of the map.
    pub fn copied(&self) -> (r: Self)
        ensures
            r@ == self@,
    {
        proof {
            use_type_invariant(self);
        }
        let mut pairs: Vec<(String, String)> = Vec::new();
        let mut i: usize = 0;
        while i < self.pairs.len()
            invariant
                i <= self.pairs@.len(),
                pairs@.len() == i,
                forall|k: int|
                    0 <= k < i ==> (#[trigger] pairs@[k]).0@ == self.pairs@[k].0@ && pairs@[k].1@
                        == self.pairs@[k].1@,
            decreases self.pairs@.len() - i,
        {
            pairs.push((self.pairs[i].0.clone(), self.pairs[i].1.clone()));
            i = i + 1;
        }
        proof {
            lemma_map_of_same(pairs@, self.pairs@);
            assert(distinct_keys(pairs@)) by {
                assert forall|a: int, b: int| 0 <= a < b < pairs@.len() implies (
                #[trigger] pairs@[a]).0@ != (#[trigger] pairs@[b]).0@ by {
                    assert(self.pairs@[a].0@ != self.pairs@[b].0@);
                }
            }
        }
        StringMap { pairs }
    }
}

/// Two lists of pairs with the same views denote the same map.
proof fn lemma_map_of_same(a: Seq<(String, String)>, b: Seq<(String, String)>)
    requires
        a.len() == b.len(),
        forall|k: int| 0 <= k < a.len() ==> (#[trigger] a[k]).0@ == b[k].0@ && a[k].1@ == b[k].1@,
    ensures
        map_of(a) == map_of(b),
    decreases a.len(),
{
    if a.len() > 0 {
        let a2 = a.drop_last();
        let b2 = b.drop_last();
        assert forall|k: int| 0 <= k < a2.len() implies (#[trigger] a2[k]).0@ == b2[k].0@
            && a2[k].1@ == b2[k].1@ by {
            assert(a2[k] == a[k] && b2[k] == b[k]);
        }
        lemma_map_of_same(a2, b2);
    }
}

impl Default for StringMap {
    /// An empty map.
    fn default() -> (r: Self)
        ensures
            r@ == Map::<Seq<char>, Seq<char>>::empty(),
    {
        StringMap::new()
    }
}

} // verus!
