//! The variable-binding table: a mapping from single-character identifiers
//! to boolean values. It is built once before evaluation and only looked up
//! afterwards; a later `insert` of the same name overrides the earlier one.

use vstd::prelude::*;

verus! {

/// The mapping denoted by a list of (name, value) pairs: pairs are taken in
/// order, so a later pair overrides an earlier one with the same name.
pub open spec fn as_map(pairs: Seq<(char, bool)>) -> Map<char, bool>
    decreases pairs.len(),
{
    if pairs.len() == 0 {
        Map::empty()
    } else {
        as_map(pairs.drop_last()).insert(pairs.last().0, pairs.last().1)
    }
}

/// A table binding single-character variable names to boolean values.
pub struct Bindings {
    pairs: Vec<(char, bool)>,
}

impl View for Bindings {
    type V = Map<char, bool>;

    closed spec fn view(&self) -> Map<char, bool> {
        as_map(self.pairs@)
    }
}

proof fn lemma_as_map_found(pairs: Seq<(char, bool)>, i: int, name: char)
    requires
        0 <= i < pairs.len(),
        pairs[i].0 == name,
        forall|k: int| i < k < pairs.len() ==> (#[trigger] pairs[k]).0 != name,
    ensures
        as_map(pairs).contains_key(name),
        as_map(pairs)[name] == pairs[i].1,
    decreases pairs.len(),
{
    if i == pairs.len() - 1 {
    } else {
        assert(pairs.drop_last()[i] == pairs[i]);
        assert(forall|k: int|
            i < k < pairs.drop_last().len() ==> (#[trigger] pairs.drop_last()[k]) == pairs[k]);
        lemma_as_map_found(pairs.drop_last(), i, name);
    }
}

proof fn lemma_as_map_absent(pairs: Seq<(char, bool)>, name: char)
    requires
        forall|k: int| 0 <= k < pairs.len() ==> (#[trigger] pairs[k]).0 != name,
    ensures
        !as_map(pairs).contains_key(name),
    decreases pairs.len(),
{
    if pairs.len() > 0 {
        assert(forall|k: int|
            0 <= k < pairs.drop_last().len() ==> (#[trigger] pairs.drop_last()[k]) == pairs[k]);
        lemma_as_map_absent(pairs.drop_last(), name);
    }
}

impl Bindings {
    /// An empty table: no variable is bound.
    pub fn new() -> (b: Bindings)
        ensures
            b@ == Map::<char, bool>::empty(),
    {
        Bindings { pairs: Vec::new() }
    }

    /// Bind `name` to `val`, overriding any earlier binding of `name`.
    pub fn insert(&mut self, name: char, val: bool)
        ensures
            final(self)@ == old(self)@.insert(name, val),
    {
        let ghost prev = self.pairs@;
        self.pairs.push((name, val));
        proof {
            assert(self.pairs@.drop_last() =~= prev);
        }
    }

    /// Look `name` up: its bound value, or `None` when it is unbound.
    pub fn get(&self, name: char) -> (r: Option<bool>)
        ensures
            r == (if self@.contains_key(name) {
                Some(self@[name])
            } else {
                None::<bool>
            }),
    {
        let mut i: usize = self.pairs.len();
        while i > 0
            invariant
                i <= self.pairs@.len(),
                forall|k: int|
                    i <= k < self.pairs@.len() ==> (#[trigger] self.pairs@[k]).0 != name,
            decreases i,
        {
            i = i - 1;
            let pair = self.pairs[i];
            if pair.0 == name {
                proof {
                    lemma_as_map_found(self.pairs@, i as int, name);
                }
                return Some(pair.1);
            }
        }
        proof {
            lemma_as_map_absent(self.pairs@, name);
        }
        None
    }

    /// Whether no variable is bound at all.
    pub fn is_empty(&self) -> (r: bool)
        ensures
            r <==> self@ == Map::<char, bool>::empty(),
    {
        if self.pairs.len() == 0 {
            true
        } else {
            proof {
                lemma_as_map_found(
                    self.pairs@,
                    self.pairs@.len() - 1,
                    self.pairs@.last().0,
                );
                assert(self@.contains_key(self.pairs@.last().0));
            }
            false
        }
    }
}

} // verus!
