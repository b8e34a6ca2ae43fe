//! A small string-to-string map: later insertions of a key replace earlier ones.

use vstd::prelude::*;

verus! {

/// The map that a list of `(key, value)` insertions builds, later ones winning.
pub open spec fn map_of(e: Seq<(String, String)>) -> Map<Seq<char>, Seq<char>>
    decreases e.len(),
{
    if e.len() == 0 {
        Map::empty()
    } else {
        map_of(e.drop_last()).insert(e.last().0@, e.last().1@)
    }
}

/// A string-to-string map.
pub struct StrMap {
    entries: Vec<(String, String)>,
}

impl View for StrMap {
    type V = Map<Seq<char>, Seq<char>>;

    closed spec fn view(&self) -> Map<Seq<char>, Seq<char>> {
        map_of(self.entries@)
    }
}

proof fn lemma_map_of_last(e: Seq<(String, String)>, j: int, k: Seq<char>)
    requires
        0 <= j < e.len(),
        e[j].0@ == k,
        forall|m: int| j < m < e.len() ==> e[m].0@ != k,
    ensures
        map_of(e).contains_key(k),
        map_of(e)[k] == e[j].1@,
    decreases e.len(),
{
    if j < e.len() - 1 {
        lemma_map_of_last(e.drop_last(), j, k);
    }
}

proof fn lemma_map_of_absent(e: Seq<(String, String)>, k: Seq<char>)
    requires
        forall|m: int| 0 <= m < e.len() ==> e[m].0@ != k,
    ensures
        !map_of(e).contains_key(k),
    decreases e.len(),
{
    if e.len() > 0 {
        lemma_map_of_absent(e.drop_last(), k);
    }
}

impl StrMap {
    /// An empty map.
    pub fn new() -> (r: StrMap)
        ensures
            r@ == Map::<Seq<char>, Seq<char>>::empty(),
    {
        StrMap { entries: Vec::new() }
    }

    /// Map `key` to `value`, replacing any earlier value of `key`.
    pub fn insert(&mut self, key: String, value: String)
        ensures
            final(self)@ == old(self)@.insert(key@, value@),
    {
        self.entries.push((key, value));
        assert(self.entries@.drop_last() == old(self).entries@);
    }

    /// The value of `key`, if any.
    pub fn get(&self, key: &str) -> (r: Option<&String>)
        ensures
            match r {
                Some(v) => self@.contains_key(key@) && self@[key@] == v@,
                None => !self@.contains_key(key@),
            },
    {
        let wanted = String::from_str(key);
        let mut i = self.entries.len();
        while i > 0
            invariant
                i <= self.entries@.len(),
                wanted@ == key@,
                forall|m: int| i <= m < self.entries@.len() ==> self.entries@[m].0@ != key@,
            decreases i,
        {
            i -= 1;
            if self.entries[i].0 == wanted {
                proof {
                    lemma_map_of_last(self.entries@, i as int, key@);
                }
                return Some(&self.entries[i].1);
            }
        }
        proof {
            lemma_map_of_absent(self.entries@, key@);
        }
        None
    }
}


proof fn lemma_map_of_concat(b: Seq<(String, String)>, l: Seq<(String, String)>)
    ensures
        map_of(b + l) == map_of(b).union_prefer_right(map_of(l)),
    decreases l.len(),
{
    if l.len() == 0 {
        assert(b + l == b);
        assert(map_of(b).union_prefer_right(map_of(l)) =~= map_of(b));
    } else {
        lemma_map_of_concat(b, l.drop_last());
        assert((b + l).drop_last() == b + l.drop_last());
        assert((b + l).last() == l.last());
        assert(map_of(b + l) =~= map_of(b).union_prefer_right(map_of(l)));
    }
}

impl StrMap {
    /// `local` laid over `base`: every key of either, with `local`'s value
    /// where both have one.
    pub fn overlay(base: StrMap, local: StrMap) -> (r: StrMap)
        ensures
            r@ == base@.union_prefer_right(local@),
    {
        let mut entries = base.entries;
        let mut rest = local.entries;
        let ghost b = entries@;
        let ghost l = rest@;
        entries.append(&mut rest);
        proof {
            lemma_map_of_concat(b, l);
        }
        StrMap { entries }
    }
}

} // verus!
