//! The flat configuration map: namespace path (in colon-joined string form)
//! to machine configuration, with unique keys.
use vstd::prelude::*;

use crate::record::{ConfigView, MachineConfig};

verus! {

/// Flat mapping from a namespace path, in its colon-joined string form, to a
/// machine configuration. Keys are unique; insertion order carries no meaning.
#[derive(Debug)]
pub struct ConfigMap {
    entries: Vec<(String, MachineConfig)>,
}

/// No two entries share a key.
spec fn keys_unique(s: Seq<(String, MachineConfig)>) -> bool {
    forall|i: int, j: int| 0 <= i < j < s.len() ==> (#[trigger] s[i]).0@ != (#[trigger] s[j]).0@
}

/// Some entry carries the key `k`.
spec fn has_key(s: Seq<(String, MachineConfig)>, k: Seq<char>) -> bool {
    exists|i: int| 0 <= i < s.len() && (#[trigger] s[i]).0@ == k
}

/// The mapping described by an entry list; a later entry overrides an
/// earlier one with the same key.
spec fn map_of(s: Seq<(String, MachineConfig)>) -> Map<Seq<char>, ConfigView>
    decreases s.len(),
{
    if s.len() == 0 {
        Map::empty()
    } else {
        map_of(s.drop_last()).insert(s.last().0@, s.last().1@)
    }
}

proof fn lemma_map_of_contains(s: Seq<(String, MachineConfig)>, k: Seq<char>)
    ensures
        map_of(s).dom().finite(),
        map_of(s).contains_key(k) <==> has_key(s, k),
    decreases s.len(),
{
    if s.len() > 0 {
        lemma_map_of_contains(s.drop_last(), k);
        if s.last().0@ == k {
            assert(s[s.len() - 1].0@ == k);
        } else if has_key(s, k) {
            let i = choose|i: int| 0 <= i < s.len() && (#[trigger] s[i]).0@ == k;
            assert(0 <= i < s.len() - 1 && s.drop_last()[i].0@ == k);
        } else if has_key(s.drop_last(), k) {
            let i = choose|i: int|
                0 <= i < s.drop_last().len() && (#[trigger] s.drop_last()[i]).0@ == k;
            assert(s[i].0@ == k);
        }
    }
}

proof fn lemma_map_of_index(s: Seq<(String, MachineConfig)>, i: int)
    requires
        keys_unique(s),
        0 <= i < s.len(),
    ensures
        map_of(s).contains_key(s[i].0@),
        map_of(s)[s[i].0@] == s[i].1@,
    decreases s.len(),
{
    if i == s.len() - 1 {
        assert(s.last() == s[i]);
    } else {
        assert(keys_unique(s.drop_last()));
        lemma_map_of_index(s.drop_last(), i);
        assert(s.drop_last()[i] == s[i]);
        assert(s.last().0@ != s[i].0@);
    }
}

proof fn lemma_map_of_len(s: Seq<(String, MachineConfig)>)
    requires
        keys_unique(s),
    ensures
        map_of(s).dom().finite(),
        map_of(s).dom().len() == s.len(),
    decreases s.len(),
{
    if s.len() > 0 {
        assert(keys_unique(s.drop_last()));
        lemma_map_of_len(s.drop_last());
        lemma_map_of_contains(s.drop_last(), s.last().0@);
        assert(!has_key(s.drop_last(), s.last().0@)) by {
            if has_key(s.drop_last(), s.last().0@) {
                let i = choose|i: int|
                    0 <= i < s.drop_last().len() && (#[trigger] s.drop_last()[i]).0@ == s.last().0@;
                assert(s[i].0@ == s[s.len() - 1].0@);
            }
        }
        assert(map_of(s).dom() =~= map_of(s.drop_last()).dom().insert(s.last().0@));
    }
}

proof fn lemma_map_of_update(s: Seq<(String, MachineConfig)>, i: int, key: String, value: MachineConfig)
    requires
        keys_unique(s),
        0 <= i < s.len(),
        s[i].0@ == key@,
    ensures
        map_of(s.update(i, (key, value))) == map_of(s).insert(key@, value@),
    decreases s.len(),
{
    let u = s.update(i, (key, value));
    if i == s.len() - 1 {
        assert(u.drop_last() =~= s.drop_last());
        assert(u.last() == (key, value));
        assert(map_of(u) == map_of(s.drop_last()).insert(key@, value@));
        assert(map_of(s.drop_last()).insert(s.last().0@, s.last().1@).insert(key@, value@)
            =~= map_of(s.drop_last()).insert(key@, value@));
    } else {
        assert(keys_unique(s.drop_last()));
        assert(s.drop_last()[i] == s[i]);
        lemma_map_of_update(s.drop_last(), i, key, value);
        assert(u.drop_last() =~= s.drop_last().update(i, (key, value)));
        assert(u.last() == s.last());
        assert(s.last().0@ != key@);
        assert(map_of(s).insert(key@, value@)
            =~= map_of(s.drop_last()).insert(key@, value@).insert(s.last().0@, s.last().1@));
    }
}

impl View for ConfigMap {
    type V = Map<Seq<char>, ConfigView>;

    closed spec fn view(&self) -> Map<Seq<char>, ConfigView> {
        map_of(self.entries@)
    }
}

impl ConfigMap {
    /// Keys are unique, so that a path addresses at most one record.
    pub closed spec fn wf(&self) -> bool {
        keys_unique(self.entries@)
    }

    /// The empty mapping.
    pub fn new() -> (r: ConfigMap)
        ensures
            r.wf(),
            r@ == Map::<Seq<char>, ConfigView>::empty(),
            r@.dom().len() == 0,
    {
        let r = ConfigMap { entries: Vec::new() };
        proof {
            lemma_map_of_len(r.entries@);
        }
        r
    }

    /// Index of the entry carrying `key`, if one is there.
    fn position_of(&self, key: &str) -> (r: Option<usize>)
        ensures
            match r {
                Some(i) => i < self.entries@.len() && self.entries@[i as int].0@ == key@,
                None => !has_key(self.entries@, key@),
            },
    {
        let mut i: usize = 0;
        while i < self.entries.len()
            invariant
                i <= self.entries@.len(),
                forall|j: int| 0 <= j < i ==> (#[trigger] self.entries@[j]).0@ != key@,
            decreases self.entries@.len() - i,
        {
            if crate::strings::str_eq(self.entries[i].0.as_str(), key) {
                return Some(i);
            }
            i += 1;
        }
        None
    }

    /// Whether some record is filed under `key`.
    pub fn contains_key(&self, key: &str) -> (r: bool)
        ensures
            r == self@.contains_key(key@),
    {
        proof {
            lemma_map_of_contains(self.entries@, key@);
        }
        self.position_of(key).is_some()
    }

    /// The record filed under `key`, if one is there.
    pub fn get(&self, key: &str) -> (r: Option<&MachineConfig>)
        requires
            self.wf(),
        ensures
            match r {
                Some(v) => self@.contains_key(key@) && v@ == self@[key@],
                None => !self@.contains_key(key@),
            },
    {
        proof {
            lemma_map_of_contains(self.entries@, key@);
        }
        match self.position_of(key) {
            Some(i) => {
                proof {
                    lemma_map_of_index(self.entries@, i as int);
                }
                Some(&self.entries[i].1)
            },
            None => None,
        }
    }

    /// File `value` under `key`, replacing any record already there.
    pub fn insert(&mut self, key: String, value: MachineConfig)
        requires
            old(self).wf(),
        ensures
            final(self).wf(),
            final(self)@ == old(self)@.insert(key@, value@),
    {
        proof {
            lemma_map_of_contains(self.entries@, key@);
        }
        match self.position_of(key.as_str()) {
            Some(i) => {
                proof {
                    lemma_map_of_update(self.entries@, i as int, key, value);
                }
                self.entries[i] = (key, value);
                assert(self.wf()) by {
                    assert(forall|a: int, b: int|
                        0 <= a < b < self.entries@.len() ==> (#[trigger] self.entries@[a]).0@
                            != (#[trigger] self.entries@[b]).0@);
                }
            },
            None => {
                let ghost s = self.entries@;
                self.entries.push((key, value));
                proof {
                    assert(self.entries@.drop_last() =~= s);
                    assert(self.entries@.last() == (key, value));
                }
            },
        }
    }

    /// How many records are filed.
    pub fn len(&self) -> (r: usize)
        requires
            self.wf(),
        ensures
            self@.dom().finite(),
            r == self@.dom().len(),
    {
        proof {
            lemma_map_of_len(self.entries@);
        }
        self.entries.len()
    }

    /// Every key, each exactly once, in no promised order.
    pub fn keys(&self) -> (r: Vec<String>)
        requires
            self.wf(),
        ensures
            self@.dom().finite(),
            r@.len() == self@.dom().len(),
            forall|i: int, j: int| 0 <= i < j < r@.len() ==> (#[trigger] r@[i])@ != (
            #[trigger] r@[j])@,
            forall|i: int| 0 <= i < r@.len() ==> self@.contains_key((#[trigger] r@[i])@),
            forall|k: Seq<char>| self@.contains_key(k) ==> exists|i: int|
                0 <= i < r@.len() && (#[trigger] r@[i])@ == k,
    {
        proof {
            lemma_map_of_len(self.entries@);
        }
        let mut r: Vec<String> = Vec::new();
        let mut i: usize = 0;
        while i < self.entries.len()
            invariant
                i <= self.entries@.len(),
                r@.len() == i,
                forall|j: int| 0 <= j < i ==> (#[trigger] r@[j])@ == self.entries@[j].0@,
            decreases self.entries@.len() - i,
        {
            r.push(self.entries[i].0.clone());
            i += 1;
        }
        proof {
            assert forall|j: int| 0 <= j < r@.len() implies self@.contains_key(
                (#[trigger] r@[j])@,
            ) by {
                lemma_map_of_index(self.entries@, j);
            }
            assert forall|k: Seq<char>| self@.contains_key(k) implies exists|i: int|
                0 <= i < r@.len() && (#[trigger] r@[i])@ == k by {
                lemma_map_of_contains(self.entries@, k);
                let i = choose|i: int|
                    0 <= i < self.entries@.len() && (#[trigger] self.entries@[i]).0@ == k;
                assert(r@[i]@ == k);
            }
        }
        r
    }

    /// Pour every entry of `other` into this map; on a shared key, `other`'s
    /// record wins.
    pub fn absorb(&mut self, other: ConfigMap)
        requires
            old(self).wf(),
            other.wf(),
        ensures
            final(self).wf(),
            final(self)@ == old(self)@.union_prefer_right(other@),
    {
        let mut rest = other;
        let ghost target = old(self)@.union_prefer_right(map_of(rest.entries@));
        while rest.entries.len() > 0
            invariant
                keys_unique(self.entries@),
                keys_unique(rest.entries@),
                self@.union_prefer_right(map_of(rest.entries@)) == target,
            decreases rest.entries@.len(),
        {
            let ghost before = rest.entries@;
            let e = rest.entries.pop().unwrap();
            proof {
                assert(rest.entries@ =~= before.drop_last());
                assert(e == before.last());
                lemma_map_of_contains(rest.entries@, e.0@);
                assert(!has_key(rest.entries@, e.0@)) by {
                    if has_key(rest.entries@, e.0@) {
                        let i = choose|i: int|
                            0 <= i < rest.entries@.len() && (#[trigger] rest.entries@[i]).0@
                                == e.0@;
                        assert(before[i].0@ == before[before.len() - 1].0@);
                    }
                }
                assert(self@.insert(e.0@, e.1@).union_prefer_right(map_of(rest.entries@))
                    =~= self@.union_prefer_right(map_of(before)));
            }
            self.insert(e.0, e.1);
        }
        proof {
            assert(self@.union_prefer_right(map_of(rest.entries@)) =~= self@);
        }
    }
}

} // verus!
